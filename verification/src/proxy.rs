//! Request parsing of the loopback HTTP and SOCKS5 proxy: which target a
//! local client asks for, and how an absolute-form HTTP request is rewritten
//! for its origin server. Reading and writing the sockets, resolving names
//! and reading IP literals are the application's.
use vstd::prelude::*;

use crate::net::{IpAddress, SocketAddress};
use crate::routing::{
    eq_ignore_ascii_case, first_index_of, split_all, split_once_char, split_once_spec,
    split_pieces, str_equal,
};
use crate::text::{
    ascii_lowercase, parse_unsigned, to_ascii_lowercase, trim, trim_whitespace, unsigned_value,
    utf8_text,
};

verus! {

/// Largest request head the proxy reads, in octets.
pub const MAX_HANDSHAKE_BYTES: usize = 16384;

/// What a client asked to reach.
#[derive(Clone, Debug, PartialEq, Eq)]
pub enum ProxyTarget {
    Address(SocketAddress),
    Domain { host: String, port: u16 },
}

/// Why a request was refused, by the kind of I/O error the proxy reports.
#[derive(Clone, Copy, Debug, PartialEq, Eq, Structural)]
pub enum ProxyError {
    /// The request is malformed or names an unusable target.
    InvalidInput,
    /// The request is not text or exceeds the head limit.
    InvalidData,
    /// The client offered no acceptable SOCKS authentication method.
    PermissionDenied,
}

/// Whether `c` may appear in a proxy target hostname.
pub open spec fn is_host_char(c: char) -> bool {
    ('a' <= c <= 'z') || ('A' <= c <= 'Z') || ('0' <= c <= '9') || c == '-' || c == '.' || c
        == '_'
}

/// Whether `h` is a hostname the proxy accepts: ASCII letters, digits,
/// hyphens, underscores and dots, at most 253 characters, with non-empty
/// dot-separated labels of at most 63 characters.
pub open spec fn proxy_hostname(h: Seq<char>) -> bool {
    &&& 0 < h.len() <= 253
    &&& forall|k: int| 0 <= k < h.len() ==> is_host_char(#[trigger] h[k])
    &&& h[0] != '.'
    &&& h.last() != '.'
    &&& forall|k: int| 0 < k < h.len() && #[trigger] h[k] == '.' ==> h[k - 1] != '.'
    &&& forall|a: int, b: int|
        0 <= a <= b < h.len() && #[trigger] crate::routing::dot_free(h, a, b) ==> b - a < 63
}

/// Whether `host` is a hostname the proxy accepts.
#[verifier::loop_isolation(false)]
pub fn validate_hostname(host: &str) -> (valid: bool)
    ensures
        valid == proxy_hostname(host@),
{
    let n = host.unicode_len();
    if n == 0 || n > 253 {
        return false;
    }
    let mut i: usize = 0;
    let mut run: usize = 0;
    while i < n
        invariant
            i <= n,
            n == host@.len(),
            run <= i,
            run <= 63,
            forall|k: int| 0 <= k < i ==> is_host_char(#[trigger] host@[k]),
            i > 0 ==> host@[0] != '.',
            forall|k: int| 0 < k < i && #[trigger] host@[k] == '.' ==> host@[k - 1] != '.',
            forall|k: int| i - run <= k < i ==> #[trigger] host@[k] != '.',
            run < i ==> host@[i - run - 1] == '.',
            forall|a: int, b: int|
                0 <= a <= b < i && #[trigger] crate::routing::dot_free(host@, a, b) ==> b - a < 63,
        decreases n - i,
    {
        let c = host.get_char(i);
        let allowed = ('a' <= c && c <= 'z') || ('A' <= c && c <= 'Z') || ('0' <= c && c <= '9')
            || c == '-' || c == '.' || c == '_';
        if !allowed {
            return false;
        }
        if c == '.' {
            if i == 0 || host.get_char(i - 1) == '.' {
                return false;
            }
            run = 0;
        } else {
            if run == 63 {
                proof {
                    let a = i - 63;
                    assert forall|k: int| a <= k <= i implies #[trigger] host@[k] != '.' by {
                        if k < i {
                            assert(i - run <= k);
                        }
                    }
                    assert(crate::routing::dot_free(host@, a, i as int));
                }
                return false;
            }
            proof {
                assert forall|a: int, b: int|
                    0 <= a <= b < i + 1 && #[trigger] crate::routing::dot_free(host@, a, b)
                        implies b - a < 63 by {
                    if b == i {
                        if a < i - run {
                            assert(host@[i - run - 1] != '.');
                        }
                    }
                }
            }
            run = run + 1;
        }
        i = i + 1;
    }
    host.get_char(n - 1) != '.'
}

/// The domain target for `host` and `port`: the port must be non-zero and
/// the host valid UTF-8 and a valid hostname.
pub open spec fn host_port_target(host: Seq<u8>, port: u16) -> Option<Seq<char>> {
    if port != 0 && vstd::utf8::valid_utf8(host) && proxy_hostname(vstd::utf8::decode_utf8(host)) {
        Some(vstd::utf8::decode_utf8(host))
    } else {
        None
    }
}

impl ProxyTarget {
    /// The domain target for raw `host` octets and `port`.
    pub fn from_host_port(host: &[u8], port: u16) -> (target: Result<ProxyTarget, ProxyError>)
        ensures
            match host_port_target(host@, port) {
                Some(h) => target matches Ok(ProxyTarget::Domain { host: name, port: p }) && name@
                    == h && p == port,
                None => target == Err::<ProxyTarget, ProxyError>(ProxyError::InvalidInput),
            },
    {
        if port == 0 {
            return Err(ProxyError::InvalidInput);
        }
        let text = match utf8_text(host) {
            Some(t) => t,
            None => return Err(ProxyError::InvalidInput),
        };
        proof {
            vstd::utf8::encode_utf8_decode_utf8(text@);
        }
        if !validate_hostname(text) {
            return Err(ProxyError::InvalidInput);
        }
        Ok(ProxyTarget::Domain { host: text.to_owned(), port })
    }

    /// The target that an authority `HOST:PORT` names, given what it reads
    /// as when taken as a socket address (`None` when it is none): that
    /// address, or else a domain split at the last colon, whose host holds
    /// no colon and whose port is a non-zero port number.
    pub fn from_authority(authority: &str, as_address: Option<SocketAddress>) -> (target: Result<
        ProxyTarget,
        ProxyError,
    >)
        ensures
            as_address matches Some(a) ==> target == Ok::<ProxyTarget, ProxyError>(
                ProxyTarget::Address(a),
            ),
            as_address is None ==> match last_split(authority@, ':') {
                Some((host, port_text)) => match unsigned_value(port_text, 0xffff) {
                    Some(port) => if host.contains(':') || port == 0 || !proxy_hostname(host) {
                        target == Err::<ProxyTarget, ProxyError>(ProxyError::InvalidInput)
                    } else {
                        target matches Ok(ProxyTarget::Domain { host: name, port: p }) && name@
                            == host && p == port
                    },
                    None => target == Err::<ProxyTarget, ProxyError>(ProxyError::InvalidInput),
                },
                None => target == Err::<ProxyTarget, ProxyError>(ProxyError::InvalidInput),
            },
    {
        if let Some(address) = as_address {
            return Ok(ProxyTarget::Address(address));
        }
        let (host, port_text) = match rsplit_once_char(authority, ':') {
            Some(parts) => parts,
            None => return Err(ProxyError::InvalidInput),
        };
        if contains_char(host, ':') {
            return Err(ProxyError::InvalidInput);
        }
        let port = match parse_unsigned(port_text, 0xffff) {
            Some(p) => p as u16,
            None => return Err(ProxyError::InvalidInput),
        };
        if port == 0 || !validate_hostname(host) {
            return Err(ProxyError::InvalidInput);
        }
        Ok(ProxyTarget::Domain { host: host.to_owned(), port })
    }
}

/// Whether `s` holds `c`.
pub fn contains_char(s: &str, c: char) -> (found: bool)
    ensures
        found == s@.contains(c),
{
    let n = s.unicode_len();
    let mut i: usize = 0;
    while i < n
        invariant
            i <= n,
            n == s@.len(),
            forall|k: int| 0 <= k < i ==> s@[k] != c,
        decreases n - i,
    {
        if s.get_char(i) == c {
            assert(s@[i as int] == c);
            return true;
        }
        i = i + 1;
    }
    false
}

/// `s` split at its last `c`, as `str::rsplit_once(c)` gives it.
pub open spec fn last_split(s: Seq<char>, c: char) -> Option<(Seq<char>, Seq<char>)> {
    if exists|i: int| 0 <= i < s.len() && s[i] == c && forall|k: int| i < k < s.len() ==> s[k] != c {
        let i = choose|i: int| 0 <= i < s.len() && s[i] == c && forall|k: int| i < k < s.len() ==> s[k] != c;
        Some((s.subrange(0, i), s.subrange(i + 1, s.len() as int)))
    } else {
        None
    }
}

/// Splits `s` at its last `c`.
#[verifier::spinoff_prover]
pub fn rsplit_once_char(s: &str, c: char) -> (parts: Option<(&str, &str)>)
    ensures
        match last_split(s@, c) {
            Some((a, b)) => parts matches Some(p) && p.0@ == a && p.1@ == b,
            None => parts is None,
        },
{
    let n = s.unicode_len();
    let mut i: usize = n;
    while i > 0
        invariant
            i <= n,
            n == s@.len(),
            forall|k: int| i <= k < n ==> s@[k] != c,
        decreases i,
    {
        if s.get_char(i - 1) == c {
            proof {
                let j = choose|j: int| 0 <= j < s@.len() && s@[j] == c && forall|k: int| j < k < s@.len() ==> s@[k] != c;
                assert(j == i - 1) by {
                    if j > i - 1 {
                    } else if j < i - 1 {
                        assert(s@[i - 1] == c);
                    }
                }
            }
            return Some((s.substring_char(0, i - 1), s.substring_char(i, n)));
        }
        i = i - 1;
    }
    None
}

/// SOCKS5: whether the client offered the method that needs no
/// authentication.
pub fn socks5_methods_acceptable(methods: &[u8]) -> (acceptable: Result<(), ProxyError>)
    ensures
        acceptable is Ok <==> methods@.contains(0u8),
        acceptable matches Err(e) ==> e == ProxyError::PermissionDenied,
{
    let mut i: usize = 0;
    while i < methods.len()
        invariant
            i <= methods@.len(),
            forall|k: int| 0 <= k < i ==> methods@[k] != 0u8,
        decreases methods@.len() - i,
    {
        if methods[i] == 0 {
            assert(methods@[i as int] == 0u8);
            return Ok(());
        }
        i = i + 1;
    }
    Err(ProxyError::PermissionDenied)
}

/// The kind of address a SOCKS5 CONNECT request carries.
#[derive(Clone, Copy, Debug, PartialEq, Eq, Structural)]
pub enum Socks5Address {
    Ipv4,
    Domain,
    Ipv6,
}

/// SOCKS5: reads the request header `VER CMD RSV ATYP`; only CONNECT is
/// supported.
pub fn socks5_request_header(header: [u8; 4]) -> (kind: Result<Socks5Address, ProxyError>)
    ensures
        !(header@[0] == 5 && header@[1] == 1 && header@[2] == 0) ==> kind == Err::<
            Socks5Address,
            ProxyError,
        >(ProxyError::InvalidInput),
        header@[0] == 5 && header@[1] == 1 && header@[2] == 0 ==> kind == if header@[3] == 1 {
            Ok::<Socks5Address, ProxyError>(Socks5Address::Ipv4)
        } else if header@[3] == 4 {
            Ok(Socks5Address::Ipv6)
        } else if header@[3] == 3 {
            Ok(Socks5Address::Domain)
        } else {
            Err(ProxyError::InvalidInput)
        },
{
    if header[0] != 5 || header[1] != 1 || header[2] != 0 {
        return Err(ProxyError::InvalidInput);
    }
    if header[3] == 1 {
        Ok(Socks5Address::Ipv4)
    } else if header[3] == 4 {
        Ok(Socks5Address::Ipv6)
    } else if header[3] == 3 {
        Ok(Socks5Address::Domain)
    } else {
        Err(ProxyError::InvalidInput)
    }
}

/// SOCKS5: the target of a CONNECT request, from the address octets its
/// kind announced and the two big-endian port octets that follow.
pub fn socks5_target(kind: Socks5Address, address: &[u8], port: [u8; 2]) -> (target: Result<
    ProxyTarget,
    ProxyError,
>)
    requires
        kind == Socks5Address::Ipv4 ==> address@.len() == 4,
        kind == Socks5Address::Ipv6 ==> address@.len() == 16,
    ensures
        ({
            let p = crate::bytes::from_be16(port@);
            match kind {
                Socks5Address::Ipv4 => target matches Ok(ProxyTarget::Address(a)) && a.ip@
                    == crate::net::IpView::V4(address@) && a.port == p,
                Socks5Address::Ipv6 => target matches Ok(ProxyTarget::Address(a)) && a.ip@
                    == crate::net::IpView::V6(address@) && a.port == p,
                Socks5Address::Domain => match host_port_target(address@, p) {
                    Some(h) => target matches Ok(ProxyTarget::Domain { host: name, port: q })
                        && name@ == h && q == p,
                    None => target == Err::<ProxyTarget, ProxyError>(ProxyError::InvalidInput),
                },
            }
        }),
{
    let p = crate::bytes::read_u16(&port, 0);
    proof {
        assert(port@.subrange(0, 2) =~= port@);
    }
    match kind {
        Socks5Address::Ipv4 => {
            let mut octets = [0u8; 4];
            let mut i: usize = 0;
            while i < 4
                invariant
                    i <= 4,
                    address@.len() == 4,
                    octets@.len() == 4,
                    forall|k: int| 0 <= k < i ==> octets@[k] == address@[k],
                decreases 4 - i,
            {
                octets[i] = address[i];
                i = i + 1;
            }
            assert(octets@ =~= address@);
            Ok(ProxyTarget::Address(SocketAddress { ip: IpAddress::V4(octets), port: p }))
        },
        Socks5Address::Ipv6 => {
            let mut octets = [0u8; 16];
            let mut i: usize = 0;
            while i < 16
                invariant
                    i <= 16,
                    address@.len() == 16,
                    octets@.len() == 16,
                    forall|k: int| 0 <= k < i ==> octets@[k] == address@[k],
                decreases 16 - i,
            {
                octets[i] = address[i];
                i = i + 1;
            }
            assert(octets@ =~= address@);
            Ok(ProxyTarget::Address(SocketAddress { ip: IpAddress::V6(octets), port: p }))
        },
        Socks5Address::Domain => ProxyTarget::from_host_port(address, p),
    }
}

/// Whether a CR LF pair starts at `k` in `s`.
pub open spec fn crlf_at(s: Seq<char>, k: int) -> bool {
    s[k] == '\r' && s[k + 1] == '\n'
}

/// The first position of a CR LF pair in `s`, if any.
pub open spec fn first_crlf(s: Seq<char>) -> Option<int> {
    if exists|i: int|
        0 <= i < s.len() - 1 && crlf_at(s, i) && forall|k: int|
            0 <= k < i ==> !#[trigger] crlf_at(s, k) {
        Some(
            choose|i: int|
                0 <= i < s.len() - 1 && crlf_at(s, i) && forall|k: int|
                    0 <= k < i ==> !#[trigger] crlf_at(s, k),
        )
    } else {
        None
    }
}

/// `s` cut at every CR LF pair, as `str::split("\r\n")` gives it.
pub open spec fn split_crlf(s: Seq<char>) -> Seq<Seq<char>>
    decreases s.len(),
{
    match first_crlf(s) {
        Some(i) => if 0 <= i && i + 2 <= s.len() {
            seq![s.subrange(0, i)] + split_crlf(s.subrange(i + 2, s.len() as int))
        } else {
            seq![s]
        },
        None => seq![s],
    }
}

fn split_once_crlf(s: &str) -> (parts: Option<(&str, &str)>)
    ensures
        match first_crlf(s@) {
            Some(i) => parts matches Some(p) && p.0@ == s@.subrange(0, i) && p.1@ == s@.subrange(
                i + 2,
                s@.len() as int,
            ) && 0 <= i && i + 2 <= s@.len(),
            None => parts is None,
        },
{
    let n = s.unicode_len();
    let mut i: usize = 0;
    while i + 1 < n
        invariant
            n == s@.len(),
            i <= n,
            i == 0 || i < n,
            forall|k: int| 0 <= k < i && k + 1 < n ==> !#[trigger] crlf_at(s@, k),
        decreases n - i,
    {
        if s.get_char(i) == '\r' && s.get_char(i + 1) == '\n' {
            proof {
                assert(crlf_at(s@, i as int));
                let j = choose|j: int|
                    0 <= j < s@.len() - 1 && crlf_at(s@, j) && forall|k: int|
                        0 <= k < j ==> !#[trigger] crlf_at(s@, k);
                assert(j == i) by {
                    if j > i {
                        assert(crlf_at(s@, i as int));
                    }
                }
            }
            return Some((s.substring_char(0, i), s.substring_char(i + 2, n)));
        }
        i = i + 1;
    }
    None
}

/// Splits `s` at every CR LF pair.
pub fn split_crlf_pieces(s: &str) -> (pieces: Vec<&str>)
    ensures
        pieces@.len() == split_crlf(s@).len(),
        forall|i: int| 0 <= i < pieces@.len() ==> (#[trigger] pieces@[i])@ == split_crlf(s@)[i],
{
    let mut pieces: Vec<&str> = Vec::new();
    let mut rest: &str = s;
    loop
        invariant
            pieces@.len() + split_crlf(rest@).len() == split_crlf(s@).len(),
            forall|i: int| 0 <= i < pieces@.len() ==> (#[trigger] pieces@[i])@ == split_crlf(s@)[i],
            split_crlf(s@).subrange(pieces@.len() as int, split_crlf(s@).len() as int) == split_crlf(
                rest@,
            ),
        decreases rest@.len(),
    {
        let ghost whole = split_crlf(s@);
        let ghost k = pieces@.len() as int;
        match split_once_crlf(rest) {
            Some((head, tail)) => {
                proof {
                    assert(split_crlf(rest@) == seq![head@] + split_crlf(tail@));
                    assert(whole.subrange(k, whole.len() as int)[0] == head@);
                    assert(whole.subrange(k + 1, whole.len() as int) =~= whole.subrange(
                        k,
                        whole.len() as int,
                    ).drop_first());
                    assert((seq![head@] + split_crlf(tail@)).drop_first() =~= split_crlf(tail@));
                }
                pieces.push(head);
                rest = tail;
            },
            None => {
                proof {
                    assert(split_crlf(rest@) == seq![rest@]);
                    assert(whole.subrange(k, whole.len() as int)[0] == rest@);
                }
                pieces.push(rest);
                return pieces;
            },
        }
    }
}

/// Whether `c` may appear in an HTTP token.
pub open spec fn is_token_char(c: char) -> bool {
    ||| ('a' <= c <= 'z') || ('A' <= c <= 'Z') || ('0' <= c <= '9')
    ||| c == '!' || c == '#' || c == '$' || c == '%' || c == '&' || c == '\'' || c == '*'
    ||| c == '+' || c == '-' || c == '.' || c == '^' || c == '_' || c == '`' || c == '|'
    ||| c == '~'
}

/// Whether `s` is an HTTP token: one or more token characters.
pub open spec fn is_token(s: Seq<char>) -> bool {
    s.len() > 0 && forall|k: int| 0 <= k < s.len() ==> is_token_char(#[trigger] s[k])
}

fn token(s: &str) -> (valid: bool)
    ensures
        valid == is_token(s@),
{
    let n = s.unicode_len();
    if n == 0 {
        return false;
    }
    let mut i: usize = 0;
    while i < n
        invariant
            i <= n,
            n == s@.len(),
            forall|k: int| 0 <= k < i ==> is_token_char(#[trigger] s@[k]),
        decreases n - i,
    {
        let c = s.get_char(i);
        let ok = ('a' <= c && c <= 'z') || ('A' <= c && c <= 'Z') || ('0' <= c && c <= '9') || c
            == '!' || c == '#' || c == '$' || c == '%' || c == '&' || c == '\'' || c == '*' || c
            == '+' || c == '-' || c == '.' || c == '^' || c == '_' || c == '`' || c == '|' || c
            == '~';
        if !ok {
            return false;
        }
        i = i + 1;
    }
    true
}

/// The position of the first `/`, `?` or `#` in `s` from `i` on, or the
/// length of `s`.
pub open spec fn authority_end(s: Seq<char>, i: int) -> int
    decreases s.len() - i,
{
    if i < 0 || i >= s.len() || s[i] == '/' || s[i] == '?' || s[i] == '#' {
        i
    } else {
        authority_end(s, i + 1)
    }
}

/// An absolute-form `http://` request target split into its authority and
/// its origin-form path: the authority must be non-empty without user
/// information, and the target carries no fragment.
pub open spec fn absolute_http_uri(uri: Seq<char>) -> Option<(Seq<char>, Seq<char>)> {
    if uri.len() >= 7 && ascii_lowercase(uri.subrange(0, 7)) == "http://"@ {
        let rest = uri.subrange(7, uri.len() as int);
        let end = authority_end(rest, 0);
        let authority = rest.subrange(0, end);
        let suffix = rest.subrange(end, rest.len() as int);
        if authority.len() == 0 || authority.contains('@') || suffix.contains('#') {
            None
        } else if suffix.len() == 0 {
            Some((authority, seq!['/']))
        } else if suffix[0] == '?' {
            Some((authority, seq!['/'] + suffix))
        } else {
            Some((authority, suffix))
        }
    } else {
        None
    }
}

proof fn lemma_authority_end(s: Seq<char>, i: int)
    requires
        0 <= i <= s.len(),
    ensures
        i <= authority_end(s, i) <= s.len(),
        forall|k: int| i <= k < authority_end(s, i) ==> s[k] != '/' && s[k] != '?' && s[k] != '#',
        authority_end(s, i) < s.len() ==> (s[authority_end(s, i)] == '/' || s[authority_end(s, i)]
            == '?' || s[authority_end(s, i)] == '#'),
    decreases s.len() - i,
{
    if i < s.len() && !(s[i] == '/' || s[i] == '?' || s[i] == '#') {
        lemma_authority_end(s, i + 1);
    }
}

/// Splits an absolute-form request target.
#[verifier::loop_isolation(false)]
pub fn split_absolute_http_uri(uri: &str) -> (parts: Result<(&str, String), ProxyError>)
    ensures
        match absolute_http_uri(uri@) {
            Some((a, o)) => parts matches Ok(p) && p.0@ == a && p.1@ == o,
            None => parts == Err::<(&str, String), ProxyError>(ProxyError::InvalidInput),
        },
{
    let n = uri.unicode_len();
    if n < 7 {
        return Err(ProxyError::InvalidInput);
    }
    let scheme = uri.substring_char(0, 7);
    if !eq_ignore_ascii_case(scheme, "http://") {
        proof {
            reveal_strlit("http://");
            assert(ascii_lowercase("http://"@) =~= "http://"@);
        }
        return Err(ProxyError::InvalidInput);
    }
    proof {
        reveal_strlit("http://");
        assert(ascii_lowercase("http://"@) =~= "http://"@);
    }
    let rest = uri.substring_char(7, n);
    let m = rest.unicode_len();
    proof {
        lemma_authority_end(rest@, 0);
    }
    let mut end: usize = 0;
    while end < m && rest.get_char(end) != '/' && rest.get_char(end) != '?' && rest.get_char(end)
        != '#'
        invariant
            end <= m,
            m == rest@.len(),
            authority_end(rest@, 0) == authority_end(rest@, end as int),
        decreases m - end,
    {
        end = end + 1;
    }
    let authority = rest.substring_char(0, end);
    let suffix = rest.substring_char(end, m);
    if authority.unicode_len() == 0 || crate::proxy::contains_char(authority, '@')
        || crate::proxy::contains_char(suffix, '#') {
        return Err(ProxyError::InvalidInput);
    }
    let origin = if suffix.unicode_len() == 0 {
        proof {
            reveal_strlit("/");
            assert("/"@ =~= seq!['/']);
        }
        String::from_str("/")
    } else if suffix.get_char(0) == '?' {
        proof {
            reveal_strlit("/");
            assert("/"@ =~= seq!['/']);
        }
        let mut o = String::from_str("/");
        o.append(suffix);
        o
    } else {
        String::from_str(suffix)
    };
    Ok((authority, origin))
}

/// Whether `c` is an ASCII control character other than a tab.
pub open spec fn is_control_not_tab(c: char) -> bool {
    ((c as u32) < 0x20 || (c as u32) == 0x7f) && c != '\t'
}

/// A header line split at its first colon into name and raw value, when it
/// is not folded, its name is a token and its value holds no control
/// character but tabs.
pub open spec fn header_line(line: Seq<char>) -> Option<(Seq<char>, Seq<char>)> {
    if line.len() > 0 && (line[0] == ' ' || line[0] == '\t') {
        None
    } else {
        match split_once_spec(line, ':') {
            None => None,
            Some((name, value)) => if is_token(name) && forall|k: int|
                0 <= k < value.len() ==> !is_control_not_tab(#[trigger] value[k]) {
                Some((name, value))
            } else {
                None
            },
        }
    }
}

/// The options named in a `Connection` header's comma-separated value:
/// trimmed, non-empty, in small letters.
pub open spec fn connection_tokens(pieces: Seq<Seq<char>>) -> Seq<Seq<char>>
    decreases pieces.len(),
{
    if pieces.len() == 0 {
        Seq::empty()
    } else {
        let rest = connection_tokens(pieces.drop_last());
        let t = trim_whitespace(pieces.last());
        if t.len() > 0 {
            rest.push(ascii_lowercase(t))
        } else {
            rest
        }
    }
}

/// The hop-by-hop options a header names: those of a `Connection` or
/// `Proxy-Connection` header, none for any other.
pub open spec fn header_tokens(name: Seq<char>, value: Seq<char>) -> Seq<Seq<char>> {
    if ascii_lowercase(name) == "connection"@ || ascii_lowercase(name) == "proxy-connection"@ {
        connection_tokens(split_all(value, ','))
    } else {
        Seq::empty()
    }
}

/// The headers, name and trimmed value, and the hop-by-hop options of a
/// request's header lines; `None` when a line is malformed.
pub open spec fn parse_headers(lines: Seq<Seq<char>>) -> Option<(Seq<(Seq<char>, Seq<char>)>, Seq<Seq<char>>)>
    decreases lines.len(),
{
    if lines.len() == 0 {
        Some((Seq::empty(), Seq::empty()))
    } else {
        match parse_headers(lines.drop_last()) {
            None => None,
            Some((headers, tokens)) => match header_line(lines.last()) {
                None => None,
                Some((name, value)) => Some(
                    (
                        headers.push((name, trim_whitespace(value))),
                        tokens + header_tokens(name, value),
                    ),
                ),
            },
        }
    }
}

/// Whether a header is forwarded: neither one the proxy replaces or that
/// concerns the proxy hop, nor one that a `Connection` option names.
pub open spec fn header_kept(name: Seq<char>, tokens: Seq<Seq<char>>) -> bool {
    let lower = ascii_lowercase(name);
    &&& lower != "host"@
    &&& lower != "connection"@
    &&& lower != "proxy-connection"@
    &&& lower != "proxy-authorization"@
    &&& lower != "keep-alive"@
    &&& forall|i: int| 0 <= i < tokens.len() ==> lower != ascii_lowercase(#[trigger] tokens[i])
}

/// Hop law: no forwarded header is `Host`, `Connection`,
/// `Proxy-Connection`, `Proxy-Authorization` or `Keep-Alive`, in any case,
/// nor one that a `Connection` option of the request names.
pub proof fn lemma_hop_headers_are_not_forwarded(name: Seq<char>, tokens: Seq<Seq<char>>)
    ensures
        header_kept(name, tokens) ==> {
            let lower = ascii_lowercase(name);
            &&& lower != "host"@
            &&& lower != "connection"@
            &&& lower != "proxy-connection"@
            &&& lower != "proxy-authorization"@
            &&& lower != "keep-alive"@
            &&& forall|i: int| 0 <= i < tokens.len() ==> lower != ascii_lowercase(#[trigger] tokens[i])
        },
{
}

/// The forwarded header lines.
pub open spec fn emit_headers(headers: Seq<(Seq<char>, Seq<char>)>, tokens: Seq<Seq<char>>) -> Seq<char>
    decreases headers.len(),
{
    if headers.len() == 0 {
        Seq::empty()
    } else {
        emit_headers(headers.drop_last(), tokens) + if header_kept(headers.last().0, tokens) {
            headers.last().0 + ": "@ + headers.last().1 + "\r\n"@
        } else {
            Seq::empty()
        }
    }
}

/// An absolute-form HTTP request head, ending in an empty line, read and
/// rewritten for its origin server: its authority, and the head that goes
/// upstream with the origin-form target, the authority as `Host`,
/// `Connection: close`, and the forwarded headers.
pub open spec fn forward_request_text(text: Seq<char>) -> Option<(Seq<char>, Seq<char>)> {
    if text.len() >= 4 && text.subrange(text.len() - 4, text.len() as int) == "\r\n\r\n"@ {
        let lines = split_crlf(text.subrange(0, text.len() - 4));
        let fields = split_all(lines[0], ' ');
        if fields.len() == 3 && is_token(fields[0]) && (fields[2] == "HTTP/1.0"@ || fields[2]
            == "HTTP/1.1"@) {
            match absolute_http_uri(fields[1]) {
                None => None,
                Some((authority, origin)) => match parse_headers(lines.drop_first()) {
                    None => None,
                    Some((headers, tokens)) => Some(
                        (
                            authority,
                            fields[0] + " "@ + origin + " "@ + fields[2] + "\r\nHost: "@ + authority
                                + "\r\nConnection: close\r\n"@ + emit_headers(headers, tokens)
                                + "\r\n"@,
                        ),
                    ),
                },
            }
        } else {
            None
        }
    } else {
        None
    }
}

/// Forwarding law: an accepted absolute-form request is rewritten to a head
/// that starts with its method (a token), a space, an origin-form target
/// beginning with `/`, a space and its version, `HTTP/1.0` or `HTTP/1.1`,
/// followed at once by the line `Host: ` with the request's authority and the
/// line `Connection: close`, and that ends with a line break.
pub proof fn lemma_forward_head_shape(text: Seq<char>)
    requires
        forward_request_text(text) is Some,
    ensures
        ({
            let rewritten = forward_request_text(text)->Some_0;
            let authority = rewritten.0;
            let head = rewritten.1;
            exists|method: Seq<char>, origin: Seq<char>, version: Seq<char>, rest: Seq<char>|
                #![trigger method + origin + version + rest]
                {
                    &&& is_token(method)
                    &&& origin.len() > 0 && origin[0] == '/'
                    &&& (version == "HTTP/1.0"@ || version == "HTTP/1.1"@)
                    &&& head == method + " "@ + origin + " "@ + version + "\r\nHost: "@ + authority
                        + "\r\nConnection: close\r\n"@ + rest
                    &&& rest.len() >= 2 && rest.subrange(rest.len() - 2, rest.len() as int) == "\r\n"@
                }
        }),
{
    reveal_strlit("\r\n");
    let lines = split_crlf(text.subrange(0, text.len() - 4));
    let fields = split_all(lines[0], ' ');
    let uri = fields[1];
    let (authority, origin) = absolute_http_uri(uri)->0;
    let (headers, tokens) = parse_headers(lines.drop_first())->0;
    let rest = emit_headers(headers, tokens) + "\r\n"@;
    let method = fields[0];
    let version = fields[2];
    let rewritten = forward_request_text(text)->Some_0;
    let head = rewritten.1;
    assert(head =~= method + " "@ + origin + " "@ + version + "\r\nHost: "@ + authority
        + "\r\nConnection: close\r\n"@ + rest);
    assert(rest.subrange(rest.len() - 2, rest.len() as int) =~= "\r\n"@);
    let r = uri.subrange(7, uri.len() as int);
    lemma_authority_end(r, 0);
    let end = authority_end(r, 0);
    let suffix = r.subrange(end, r.len() as int);
    if suffix.len() > 0 && suffix[0] != '?' {
        assert(suffix[0] == r[end]);
        if suffix[0] == '#' {
            assert(suffix.contains('#'));
        }
    }
    assert(origin.len() > 0 && origin[0] == '/');
    let _ = method + origin + version + rest;
}

/// A forwarded request: the authority it names and its rewritten head.
pub struct ForwardRequest {
    pub authority: String,
    pub head: Vec<u8>,
}

/// Whether an HTTP authority names its port: text after its last colon
/// that is not inside the brackets of an IPv6 address.
pub open spec fn names_port(authority: Seq<char>) -> bool {
    match last_split(authority, ':') {
        Some((host, port)) => !port.contains(']'),
        None => false,
    }
}

/// An HTTP authority with the default port 80 where it names none.
pub open spec fn authority_with_port(authority: Seq<char>) -> Seq<char> {
    if names_port(authority) {
        authority
    } else {
        authority + ":80"@
    }
}

impl ForwardRequest {
    /// The authority with the default port 80 where it names none: the text
    /// whose socket-address reading `target` takes.
    pub fn target_authority(&self) -> (text: String)
        ensures
            text@ == authority_with_port(self.authority@),
    {
        let mut text = self.authority.clone();
        let named = match rsplit_once_char(self.authority.as_str(), ':') {
            Some((_, port)) => !contains_char(port, ']'),
            None => false,
        };
        if !named {
            text.append(":80");
        }
        text
    }

    /// The target this request is forwarded to: its authority, with the
    /// default port where it names none, read as `ProxyTarget::from_authority`
    /// reads it, given what that text reads as when taken as a socket address.
    pub fn target(&self, as_address: Option<SocketAddress>) -> (target: Result<ProxyTarget, ProxyError>)
        ensures
            as_address matches Some(a) ==> target == Ok::<ProxyTarget, ProxyError>(
                ProxyTarget::Address(a),
            ),
            as_address is None ==> match last_split(authority_with_port(self.authority@), ':') {
                Some((host, port_text)) => match unsigned_value(port_text, 0xffff) {
                    Some(port) => if host.contains(':') || port == 0 || !proxy_hostname(host) {
                        target == Err::<ProxyTarget, ProxyError>(ProxyError::InvalidInput)
                    } else {
                        target matches Ok(ProxyTarget::Domain { host: name, port: p }) && name@
                            == host && p == port
                    },
                    None => target == Err::<ProxyTarget, ProxyError>(ProxyError::InvalidInput),
                },
                None => target == Err::<ProxyTarget, ProxyError>(ProxyError::InvalidInput),
            },
    {
        let text = self.target_authority();
        ProxyTarget::from_authority(text.as_str(), as_address)
    }
}

#[verifier::loop_isolation(false)]
fn parse_header_line(line: &str) -> (parsed: Option<(&str, &str)>)
    ensures
        match header_line(line@) {
            Some((n, v)) => parsed matches Some(p) && p.0@ == n && p.1@ == v,
            None => parsed is None,
        },
{
    if line.unicode_len() > 0 && (line.get_char(0) == ' ' || line.get_char(0) == '\t') {
        return None;
    }
    let (name, value) = match split_once_char(line, ':') {
        Some(parts) => parts,
        None => return None,
    };
    if !token(name) {
        return None;
    }
    let n = value.unicode_len();
    let mut i: usize = 0;
    while i < n
        invariant
            i <= n,
            n == value@.len(),
            forall|k: int| 0 <= k < i ==> !is_control_not_tab(#[trigger] value@[k]),
        decreases n - i,
    {
        let c = value.get_char(i);
        if ((c as u32) < 0x20 || (c as u32) == 0x7f) && c != '\t' {
            assert(is_control_not_tab(value@[i as int]));
            return None;
        }
        i = i + 1;
    }
    Some((name, value))
}

fn value_tokens(value: &str) -> (tokens: Vec<String>)
    ensures
        tokens@.map_values(|t: String| t@) == connection_tokens(split_all(value@, ',')),
{
    let pieces = split_pieces(value, ',');
    let ghost pv = split_all(value@, ',');
    let mut tokens: Vec<String> = Vec::new();
    let mut i: usize = 0;
    assert(tokens@.map_values(|t: String| t@) =~= connection_tokens(pv.subrange(0, 0)));
    while i < pieces.len()
        invariant
            i <= pieces@.len(),
            pieces@.len() == pv.len(),
            pv == split_all(value@, ','),
            forall|k: int| 0 <= k < pieces@.len() ==> (#[trigger] pieces@[k])@ == pv[k],
            tokens@.map_values(|t: String| t@) == connection_tokens(pv.subrange(0, i as int)),
        decreases pieces@.len() - i,
    {
        proof {
            assert(pv.subrange(0, i + 1).drop_last() =~= pv.subrange(0, i as int));
            assert(pv.subrange(0, i + 1).last() == pieces@[i as int]@);
        }
        let t = trim(pieces[i]);
        if t.unicode_len() > 0 {
            let ghost before = tokens@;
            tokens.push(to_ascii_lowercase(t));
            proof {
                assert(tokens@.map_values(|t: String| t@) =~= before.map_values(|t: String| t@).push(
                    ascii_lowercase(t@),
                ));
            }
        }
        i = i + 1;
    }
    proof {
        assert(pv.subrange(0, pieces@.len() as int) =~= pv);
    }
    tokens
}

fn names_header(name: &str, literal: &str) -> (equal: bool)
    ensures
        equal == (ascii_lowercase(name@) == ascii_lowercase(literal@)),
{
    eq_ignore_ascii_case(name, literal)
}

proof fn lemma_lowercase_literal(s: Seq<char>)
    requires
        forall|k: int| 0 <= k < s.len() ==> !('A' <= #[trigger] s[k] <= 'Z'),
    ensures
        ascii_lowercase(s) == s,
{
    assert(ascii_lowercase(s) =~= s);
}

fn kept(name: &str, tokens: &Vec<String>) -> (keep: bool)
    ensures
        keep == header_kept(name@, tokens@.map_values(|t: String| t@)),
{
    proof {
        reveal_strlit("host");
        reveal_strlit("connection");
        reveal_strlit("proxy-connection");
        reveal_strlit("proxy-authorization");
        reveal_strlit("keep-alive");
        lemma_lowercase_literal("host"@);
        lemma_lowercase_literal("connection"@);
        lemma_lowercase_literal("proxy-connection"@);
        lemma_lowercase_literal("proxy-authorization"@);
        lemma_lowercase_literal("keep-alive"@);
    }
    if names_header(name, "host") || names_header(name, "connection") || names_header(
        name,
        "proxy-connection",
    ) || names_header(name, "proxy-authorization") || names_header(name, "keep-alive") {
        return false;
    }
    let ghost tv = tokens@.map_values(|t: String| t@);
    let mut i: usize = 0;
    while i < tokens.len()
        invariant
            i <= tokens@.len(),
            tv == tokens@.map_values(|t: String| t@),
            forall|k: int| 0 <= k < i ==> ascii_lowercase(name@) != ascii_lowercase(#[trigger] tv[k]),
        decreases tokens@.len() - i,
    {
        if eq_ignore_ascii_case(name, tokens[i].as_str()) {
            assert(ascii_lowercase(name@) == ascii_lowercase(tv[i as int]));
            return false;
        }
        i = i + 1;
    }
    true
}

proof fn lemma_split_crlf_nonempty(s: Seq<char>)
    ensures
        split_crlf(s).len() >= 1,
    decreases s.len(),
{
    if let Some(i) = first_crlf(s) {
        if 0 <= i && i + 2 <= s.len() {
            lemma_split_crlf_nonempty(s.subrange(i + 2, s.len() as int));
        }
    }
}

proof fn lemma_split_all_nonempty(s: Seq<char>, c: char)
    ensures
        split_all(s, c).len() >= 1,
    decreases s.len(),
{
    match split_once_spec(s, c) {
        Some((head, tail)) => {
            if tail.len() < s.len() {
                lemma_split_all_nonempty(tail, c);
            }
        },
        None => {},
    }
}

/// The views of parsed headers.
pub open spec fn headers_view(headers: Seq<(&str, &str)>) -> Seq<(Seq<char>, Seq<char>)> {
    headers.map_values(|h: (&str, &str)| (h.0@, h.1@))
}

/// The views of hop-by-hop options.
pub open spec fn tokens_view(tokens: Seq<String>) -> Seq<Seq<char>> {
    tokens.map_values(|t: String| t@)
}

#[verifier::loop_isolation(false)]
fn parse_header_lines<'a>(lines: &Vec<&'a str>) -> (parsed: Option<(Vec<(&'a str, &'a str)>, Vec<String>)>)
    requires
        lines@.len() >= 1,
    ensures
        match parse_headers(lines@.map_values(|l: &str| l@).drop_first()) {
            Some((h, t)) => parsed matches Some(p) && headers_view(p.0@) == h && tokens_view(p.1@)
                == t,
            None => parsed is None,
        },
{
    let ghost lv = lines@.map_values(|l: &str| l@);
    let mut headers: Vec<(&str, &str)> = Vec::new();
    let mut tokens: Vec<String> = Vec::new();
    let mut i: usize = 1;
    assert(lv.drop_first().subrange(0, 0) =~= Seq::<Seq<char>>::empty());
    assert(headers_view(headers@) =~= Seq::<(Seq<char>, Seq<char>)>::empty());
    assert(tokens_view(tokens@) =~= Seq::<Seq<char>>::empty());
    while i < lines.len()
        invariant
            1 <= i <= lines@.len(),
            parse_headers(lv.drop_first().subrange(0, i - 1)) == Some(
                (headers_view(headers@), tokens_view(tokens@)),
            ),
        decreases lines@.len() - i,
    {
        proof {
            assert(lv.drop_first().subrange(0, i as int).drop_last() =~= lv.drop_first().subrange(
                0,
                i - 1,
            ));
            assert(lv.drop_first().subrange(0, i as int).last() == lines@[i as int]@);
        }
        let (name, value) = match parse_header_line(lines[i]) {
            Some(parts) => parts,
            None => {
                proof {
                    lemma_parse_headers_failure_is_final(lv.drop_first(), i - 1, lv.len() - 1);
                    assert(lv.drop_first().subrange(0, lv.len() - 1) =~= lv.drop_first());
                }
                return None;
            },
        };
        let ghost hbefore = headers@;
        headers.push((name, trim(value)));
        proof {
            assert(headers_view(headers@) =~= headers_view(hbefore).push(
                (name@, trim_whitespace(value@)),
            ));
            reveal_strlit("connection");
            reveal_strlit("proxy-connection");
            lemma_lowercase_literal("connection"@);
            lemma_lowercase_literal("proxy-connection"@);
        }
        let ghost tbefore = tokens@;
        if names_header(name, "connection") || names_header(name, "proxy-connection") {
            let more = value_tokens(value);
            let mut k: usize = 0;
            while k < more.len()
                invariant
                    k <= more@.len(),
                    tokens_view(tokens@) == tokens_view(tbefore) + tokens_view(more@).subrange(
                        0,
                        k as int,
                    ),
                decreases more@.len() - k,
            {
                let ghost tk = tokens@;
                tokens.push(more[k].clone());
                proof {
                    assert(tokens_view(tokens@) =~= tokens_view(tk).push(more@[k as int]@));
                    assert(tokens_view(more@).subrange(0, k + 1) =~= tokens_view(more@).subrange(
                        0,
                        k as int,
                    ).push(more@[k as int]@));
                }
                k = k + 1;
            }
            proof {
                assert(tokens_view(more@).subrange(0, more@.len() as int) =~= tokens_view(more@));
            }
        } else {
            proof {
                assert(tokens_view(tokens@) =~= tokens_view(tbefore) + header_tokens(name@, value@));
            }
        }
        i = i + 1;
    }
    proof {
        assert(lv.drop_first().subrange(0, lines@.len() - 1) =~= lv.drop_first());
    }
    Some((headers, tokens))
}

#[verifier::loop_isolation(false)]
fn emit_kept_headers(out: &mut String, headers: &Vec<(&str, &str)>, tokens: &Vec<String>)
    ensures
        final(out)@ == old(out)@ + emit_headers(headers_view(headers@), tokens_view(tokens@)),
{
    let ghost hv = headers_view(headers@);
    let ghost tv = tokens_view(tokens@);
    let ghost prefix = out@;
    let mut j: usize = 0;
    assert(emit_headers(hv.subrange(0, 0), tv) =~= Seq::<char>::empty());
    assert(out@ =~= prefix + emit_headers(hv.subrange(0, 0), tv));
    while j < headers.len()
        invariant
            j <= headers@.len(),
            out@ == prefix + emit_headers(hv.subrange(0, j as int), tv),
        decreases headers@.len() - j,
    {
        proof {
            assert(hv.subrange(0, j + 1).drop_last() =~= hv.subrange(0, j as int));
            assert(hv.subrange(0, j + 1).last() == (headers@[j as int].0@, headers@[j as int].1@));
        }
        let (name, value) = headers[j];
        if kept(name, tokens) {
            out.append(name);
            out.append(": ");
            out.append(value);
            out.append("\r\n");
            proof {
                assert(out@ =~= prefix + emit_headers(hv.subrange(0, j + 1), tv));
            }
        } else {
            proof {
                assert(out@ =~= prefix + emit_headers(hv.subrange(0, j + 1), tv));
            }
        }
        j = j + 1;
    }
    proof {
        assert(hv.subrange(0, headers@.len() as int) =~= hv);
    }
}

/// Reads an absolute-form HTTP request head and rewrites it for its origin
/// server. The authority is kept as text here: `ForwardRequest::target`
/// reads it, given its socket-address reading, and refuses an authority that
/// names no target, with the same error.
pub fn parse_forward_request(head: &[u8]) -> (request: Result<ForwardRequest, ProxyError>)
    ensures
        !vstd::utf8::valid_utf8(head@) ==> request == Err::<ForwardRequest, ProxyError>(
            ProxyError::InvalidInput,
        ),
        vstd::utf8::valid_utf8(head@) ==> match forward_request_text(
            vstd::utf8::decode_utf8(head@),
        ) {
            Some((authority, rewritten)) => request matches Ok(r) && r.authority@ == authority
                && r.head@ == vstd::utf8::encode_utf8(rewritten),
            None => request == Err::<ForwardRequest, ProxyError>(ProxyError::InvalidInput),
        },
{
    let text = match utf8_text(head) {
        Some(t) => t,
        None => return Err(ProxyError::InvalidInput),
    };
    proof {
        vstd::utf8::encode_utf8_decode_utf8(text@);
    }
    let n = text.unicode_len();
    if n < 4 || !str_equal(text.substring_char(n - 4, n), "\r\n\r\n") {
        return Err(ProxyError::InvalidInput);
    }
    let body = text.substring_char(0, n - 4);
    let lines = split_crlf_pieces(body);
    proof {
        lemma_split_crlf_nonempty(body@);
        assert(lines@.map_values(|l: &str| l@) =~= split_crlf(body@));
    }
    let fields = split_pieces(lines[0], ' ');
    if fields.len() != 3 || !token(fields[0]) || !(str_equal(fields[2], "HTTP/1.0") || str_equal(
        fields[2],
        "HTTP/1.1",
    )) {
        return Err(ProxyError::InvalidInput);
    }
    let (authority, origin) = split_absolute_http_uri(fields[1])?;
    let (headers, tokens) = match parse_header_lines(&lines) {
        Some(parsed) => parsed,
        None => return Err(ProxyError::InvalidInput),
    };
    let mut out = String::from_str(fields[0]);
    out.append(" ");
    out.append(origin.as_str());
    out.append(" ");
    out.append(fields[2]);
    out.append("\r\nHost: ");
    out.append(authority);
    out.append("\r\nConnection: close\r\n");
    emit_kept_headers(&mut out, &headers, &tokens);
    out.append("\r\n");
    let bytes = out.as_str().as_bytes();
    let mut rewritten: Vec<u8> = Vec::new();
    crate::bytes::push_all(&mut rewritten, bytes);
    proof {
        assert(rewritten@ =~= bytes@);
    }
    Ok(ForwardRequest { authority: String::from_str(authority), head: rewritten })
}

proof fn lemma_parse_headers_failure_is_final(lines: Seq<Seq<char>>, i: int, j: int)
    requires
        0 <= i < j <= lines.len(),
        parse_headers(lines.subrange(0, i)) is Some,
        header_line(lines[i]) is None,
    ensures
        parse_headers(lines.subrange(0, j)) is None,
    decreases j - i,
{
    if j == i + 1 {
        assert(lines.subrange(0, j).drop_last() =~= lines.subrange(0, i));
    } else {
        lemma_parse_headers_failure_is_final(lines, i, j - 1);
        assert(lines.subrange(0, j).drop_last() =~= lines.subrange(0, j - 1));
    }
}

/// The position after the word of `s` that continues at `i`.
pub open spec fn word_end(s: Seq<char>, i: int) -> int
    decreases s.len() - i,
{
    if 0 <= i < s.len() && !crate::text::is_whitespace_char(s[i]) {
        word_end(s, i + 1)
    } else {
        i
    }
}

proof fn lemma_word_end(s: Seq<char>, i: int)
    requires
        0 <= i <= s.len(),
    ensures
        i <= word_end(s, i) <= s.len(),
        forall|k: int| i <= k < word_end(s, i) ==> !crate::text::is_whitespace_char(#[trigger] s[k]),
        word_end(s, i) < s.len() ==> crate::text::is_whitespace_char(s[word_end(s, i)]),
    decreases s.len() - i,
{
    if i < s.len() && !crate::text::is_whitespace_char(s[i]) {
        lemma_word_end(s, i + 1);
    }
}

/// The whitespace-separated words of `s` from `i` on, as
/// `str::split_whitespace` gives them.
pub open spec fn words_from(s: Seq<char>, i: int) -> Seq<Seq<char>>
    decreases s.len() - i,
{
    if i < 0 || i >= s.len() {
        Seq::empty()
    } else if crate::text::is_whitespace_char(s[i]) {
        words_from(s, i + 1)
    } else {
        let j = word_end(s, i);
        if i < j <= s.len() {
            seq![s.subrange(i, j)] + words_from(s, j)
        } else {
            Seq::empty()
        }
    }
}

/// What a proxy request head asks for.
pub enum HttpRequest {
    Connect { authority: String },
    Forward(ForwardRequest),
}

/// The first words of `s`, at most four.
#[verifier::loop_isolation(false)]
fn leading_words(s: &str) -> (words: Vec<&str>)
    ensures
        words@.len() == if words_from(s@, 0).len() < 4 {
            words_from(s@, 0).len()
        } else {
            4
        },
        forall|k: int| 0 <= k < words@.len() ==> (#[trigger] words@[k])@ == words_from(s@, 0)[k],
{
    let n = s.unicode_len();
    let mut words: Vec<&str> = Vec::new();
    let mut pos: usize = 0;
    while pos < n && words.len() < 4
        invariant
            pos <= n,
            n == s@.len(),
            words@.len() <= 4,
            words_from(s@, 0) == words@.map_values(|w: &str| w@) + words_from(s@, pos as int),
        decreases n - pos, 4 - words@.len(),
    {
        let c = s.get_char(pos);
        if crate::text::is_whitespace(c) {
            pos = pos + 1;
        } else {
            proof {
                lemma_word_end(s@, pos as int);
            }
            let mut end: usize = pos + 1;
            while end < n && !crate::text::is_whitespace(s.get_char(end))
                invariant
                    pos < end <= n,
                    word_end(s@, pos as int) == word_end(s@, end as int),
                decreases n - end,
            {
                end = end + 1;
            }
            let ghost before = words@;
            words.push(s.substring_char(pos, end));
            proof {
                assert(words@.map_values(|w: &str| w@) =~= before.map_values(|w: &str| w@).push(
                    s@.subrange(pos as int, end as int),
                ));
            }
            pos = end;
        }
    }
    proof {
        if pos >= n {
            assert(words_from(s@, pos as int) =~= Seq::<Seq<char>>::empty());
        }
        assert(words@.map_values(|w: &str| w@).len() == words@.len());
    }
    words
}

/// What a request head asks for: a `CONNECT` (in any case) with exactly an
/// authority and an HTTP/1.x version in its words, or else an absolute-form
/// request to rewrite.
pub open spec fn head_is_connect(words: Seq<Seq<char>>) -> bool {
    words.len() >= 2 && ascii_lowercase(words[0]) == "connect"@
}

/// Reads a complete request head.
#[verifier::loop_isolation(false)]
pub fn read_http_head(head: &[u8]) -> (request: Result<HttpRequest, ProxyError>)
    ensures
        !vstd::utf8::valid_utf8(head@) ==> request == Err::<HttpRequest, ProxyError>(
            ProxyError::InvalidData,
        ),
        vstd::utf8::valid_utf8(head@) ==> ({
            let words = words_from(vstd::utf8::decode_utf8(head@), 0);
            if words.len() < 2 {
                request == Err::<HttpRequest, ProxyError>(ProxyError::InvalidInput)
            } else if head_is_connect(words) {
                if words.len() == 3 && (words[2] == "HTTP/1.0"@ || words[2] == "HTTP/1.1"@) {
                    request matches Ok(HttpRequest::Connect { authority }) && authority@ == words[1]
                } else {
                    request == Err::<HttpRequest, ProxyError>(ProxyError::InvalidInput)
                }
            } else {
                match forward_request_text(vstd::utf8::decode_utf8(head@)) {
                    Some((authority, rewritten)) => request matches Ok(HttpRequest::Forward(r))
                        && r.authority@ == authority && r.head@ == vstd::utf8::encode_utf8(
                        rewritten,
                    ),
                    None => request == Err::<HttpRequest, ProxyError>(ProxyError::InvalidInput),
                }
            }
        }),
{
    let text = match utf8_text(head) {
        Some(t) => t,
        None => return Err(ProxyError::InvalidData),
    };
    proof {
        vstd::utf8::encode_utf8_decode_utf8(text@);
        reveal_strlit("CONNECT");
        reveal_strlit("connect");
        lemma_lowercase_literal("connect"@);
        assert(ascii_lowercase("CONNECT"@) =~= "connect"@);
    }
    let words = leading_words(text);
    if words.len() < 2 {
        return Err(ProxyError::InvalidInput);
    }
    if eq_ignore_ascii_case(words[0], "CONNECT") {
        if words.len() != 3 || !(str_equal(words[2], "HTTP/1.0") || str_equal(words[2], "HTTP/1.1")) {
            return Err(ProxyError::InvalidInput);
        }
        return Ok(HttpRequest::Connect { authority: String::from_str(words[1]) });
    }
    match parse_forward_request(head) {
        Ok(r) => Ok(HttpRequest::Forward(r)),
        Err(e) => Err(e),
    }
}

} // verus!
