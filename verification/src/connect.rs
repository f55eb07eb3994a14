//! HTTP CONNECT requests of the local adapter: a request head is read into
//! the authority it names and the tunnel bytes that follow it. Whether the
//! authority is a socket address is decided outside the library; a host name
//! is refused.
use vstd::prelude::*;

use crate::net::SocketAddress;
use crate::routing::{first_index_of, str_equal};
use crate::text::utf8_text;

verus! {

/// Largest CONNECT request head the local adapter accepts, in octets.
pub const MAX_HEADER_BYTES: usize = 8192;

/// Why a local CONNECT request was refused.
#[derive(Clone, Copy, Debug, PartialEq, Eq, Structural)]
pub enum ConnectError {
    Incomplete,
    HeaderTooLarge,
    InvalidRequest,
    UnsupportedMethod,
    UnsupportedVersion,
    HostnamesUnsupported,
}

/// The reply that opens a CONNECT tunnel.
pub open spec fn connection_established_text() -> Seq<u8> {
    seq![
        0x48u8, 0x54, 0x54, 0x50, 0x2f, 0x31, 0x2e, 0x31, 0x20, 0x32, 0x30, 0x30, 0x20, 0x43, 0x6f,
        0x6e, 0x6e, 0x65, 0x63, 0x74, 0x69, 0x6f, 0x6e, 0x20, 0x45, 0x73, 0x74, 0x61, 0x62, 0x6c,
        0x69, 0x73, 0x68, 0x65, 0x64, 0x0d, 0x0a, 0x0d, 0x0a,
    ]
}

/// `HTTP/1.1 200 Connection Established` followed by an empty line.
pub fn connection_established() -> (reply: Vec<u8>)
    ensures
        reply@ == connection_established_text(),
{
    let reply: Vec<u8> = vec![
        0x48u8, 0x54, 0x54, 0x50, 0x2f, 0x31, 0x2e, 0x31, 0x20, 0x32, 0x30, 0x30, 0x20, 0x43, 0x6f,
        0x6e, 0x6e, 0x65, 0x63, 0x74, 0x69, 0x6f, 0x6e, 0x20, 0x45, 0x73, 0x74, 0x61, 0x62, 0x6c,
        0x69, 0x73, 0x68, 0x65, 0x64, 0x0d, 0x0a, 0x0d, 0x0a,
    ];
    assert(reply@ =~= connection_established_text());
    reply
}

/// Whether `c` is ASCII whitespace: space, tab, line feed, form feed or
/// carriage return.
pub open spec fn is_ascii_space(c: char) -> bool {
    c == ' ' || c == '\t' || c == '\n' || c == '\x0C' || c == '\r'
}

/// The position after the word of `s` that continues at `i`.
pub open spec fn ascii_word_end(s: Seq<char>, i: int) -> int
    decreases s.len() - i,
{
    if 0 <= i < s.len() && !is_ascii_space(s[i]) {
        ascii_word_end(s, i + 1)
    } else {
        i
    }
}

proof fn lemma_ascii_word_end(s: Seq<char>, i: int)
    requires
        0 <= i <= s.len(),
    ensures
        i <= ascii_word_end(s, i) <= s.len(),
    decreases s.len() - i,
{
    if i < s.len() && !is_ascii_space(s[i]) {
        lemma_ascii_word_end(s, i + 1);
    }
}

/// The words of `s` from `i` on, separated by ASCII whitespace, as
/// `str::split_ascii_whitespace` gives them.
pub open spec fn ascii_words_from(s: Seq<char>, i: int) -> Seq<Seq<char>>
    decreases s.len() - i,
{
    if i < 0 || i >= s.len() {
        Seq::empty()
    } else if is_ascii_space(s[i]) {
        ascii_words_from(s, i + 1)
    } else {
        let j = ascii_word_end(s, i);
        if i < j <= s.len() {
            seq![s.subrange(i, j)] + ascii_words_from(s, j)
        } else {
            Seq::empty()
        }
    }
}

fn is_space(c: char) -> (space: bool)
    ensures
        space == is_ascii_space(c),
{
    c == ' ' || c == '\t' || c == '\n' || c == '\x0C' || c == '\r'
}

/// The first words of `s`, at most four.
#[verifier::loop_isolation(false)]
pub(crate) fn first_words(s: &str) -> (words: Vec<&str>)
    ensures
        words@.len() == if ascii_words_from(s@, 0).len() < 4 {
            ascii_words_from(s@, 0).len()
        } else {
            4
        },
        forall|k: int| 0 <= k < words@.len() ==> (#[trigger] words@[k])@ == ascii_words_from(s@, 0)[k],
{
    let n = s.unicode_len();
    let mut words: Vec<&str> = Vec::new();
    let mut pos: usize = 0;
    while pos < n && words.len() < 4
        invariant
            pos <= n,
            n == s@.len(),
            words@.len() <= 4,
            ascii_words_from(s@, 0) == words@.map_values(|w: &str| w@) + ascii_words_from(s@, pos as int),
        decreases n - pos, 4 - words@.len(),
    {
        let c = s.get_char(pos);
        if is_space(c) {
            pos = pos + 1;
        } else {
            proof {
                lemma_ascii_word_end(s@, pos as int);
            }
            let mut end: usize = pos + 1;
            while end < n && !is_space(s.get_char(end))
                invariant
                    pos < end <= n,
                    ascii_word_end(s@, pos as int) == ascii_word_end(s@, end as int),
                decreases n - end,
            {
                end = end + 1;
            }
            let ghost before = words@;
            words.push(s.substring_char(pos, end));
            proof {
                assert(words@.map_values(|w: &str| w@) =~= before.map_values(|w: &str| w@).push(
                    s@.subrange(pos as int, end as int),
                ));
            }
            pos = end;
        }
    }
    proof {
        if pos >= n {
            assert(ascii_words_from(s@, pos as int) =~= Seq::<Seq<char>>::empty());
        }
        assert(words@.map_values(|w: &str| w@).len() == words@.len());
    }
    words
}

/// Whether `\r\n\r\n` starts at `i`.
pub open spec fn blank_line_at(b: Seq<u8>, i: int) -> bool {
    b[i] == 13 && b[i + 1] == 10 && b[i + 2] == 13 && b[i + 3] == 10
}

/// Where the first `\r\n\r\n` starts, if anywhere.
pub open spec fn head_end(b: Seq<u8>) -> Option<int> {
    if exists|i: int| 0 <= i && i + 4 <= b.len() && #[trigger] blank_line_at(b, i) && forall|k: int|
        0 <= k < i ==> !blank_line_at(b, k) {
        Some(
            choose|i: int| 0 <= i && i + 4 <= b.len() && #[trigger] blank_line_at(b, i) && forall|k: int|
                0 <= k < i ==> !blank_line_at(b, k),
        )
    } else {
        None
    }
}

/// The first line of a head, up to its first line feed.
pub open spec fn first_line(header: Seq<char>) -> Seq<char> {
    match first_index_of(header, '\n') {
        Some(p) => header.subrange(0, p),
        None => header,
    }
}

/// `CONNECT`.
pub open spec fn connect_method() -> Seq<char> {
    seq!['C', 'O', 'N', 'N', 'E', 'C', 'T']
}

/// `HTTP/1.1`.
pub open spec fn http_11() -> Seq<char> {
    seq!['H', 'T', 'T', 'P', '/', '1', '.', '1']
}

/// What a request reads as: the authority its request line names and the
/// octets after its head, or why it is refused.
pub open spec fn connect_head(b: Seq<u8>) -> Result<(Seq<char>, Seq<u8>), ConnectError> {
    match head_end(b) {
        None => if b.len() > MAX_HEADER_BYTES {
            Err(ConnectError::HeaderTooLarge)
        } else {
            Err(ConnectError::Incomplete)
        },
        Some(h) => if h + 4 > MAX_HEADER_BYTES {
            Err(ConnectError::HeaderTooLarge)
        } else if !vstd::utf8::valid_utf8(b.subrange(0, h)) {
            Err(ConnectError::InvalidRequest)
        } else {
            let header = vstd::utf8::decode_utf8(b.subrange(0, h));
            let words = ascii_words_from(first_line(header), 0);
            if header.len() == 0 || words.len() != 3 {
                Err(ConnectError::InvalidRequest)
            } else if words[0] != connect_method() {
                Err(ConnectError::UnsupportedMethod)
            } else if words[2] != http_11() {
                Err(ConnectError::UnsupportedVersion)
            } else {
                Ok((words[1], b.subrange(h + 4, b.len() as int)))
            }
        },
    }
}

/// A read request head: the authority and the tunnel bytes after the head.
pub struct ConnectHead {
    pub authority: String,
    pub remaining: Vec<u8>,
}

/// A CONNECT request to a socket address.
#[derive(Clone, Debug, PartialEq, Eq)]
pub struct ConnectRequest {
    pub target: SocketAddress,
    pub remaining: Vec<u8>,
}

fn find_head_end(bytes: &[u8]) -> (end: Option<usize>)
    ensures
        end matches Some(e) ==> head_end(bytes@) == Some(e as int),
        end is None ==> head_end(bytes@) is None,
{
    let n = bytes.len();
    if n < 4 {
        return None;
    }
    let mut i: usize = 0;
    while i <= n - 4
        invariant
            n == bytes@.len(),
            4 <= n,
            i <= n - 3,
            forall|k: int| 0 <= k < i ==> !#[trigger] blank_line_at(bytes@, k),
        decreases n - i,
    {
        if bytes[i] == 13 && bytes[i + 1] == 10 && bytes[i + 2] == 13 && bytes[i + 3] == 10 {
            assert(blank_line_at(bytes@, i as int));
            return Some(i);
        }
        i = i + 1;
    }
    proof {
        assert forall|j: int| 0 <= j && j + 4 <= bytes@.len() implies !#[trigger] blank_line_at(bytes@, j) by {}
    }
    None
}

/// Reads a local CONNECT request head: the request line must be `CONNECT`,
/// an authority and `HTTP/1.1`, within `MAX_HEADER_BYTES`.
#[verifier::loop_isolation(false)]
pub fn parse_request(bytes: &[u8]) -> (head: Result<ConnectHead, ConnectError>)
    ensures
        match connect_head(bytes@) {
            Ok((authority, remaining)) => head matches Ok(h) && h.authority@ == authority
                && h.remaining@ == remaining,
            Err(e) => head matches Err(f) && f == e,
        },
{
    proof {
        reveal_strlit("CONNECT");
        assert("CONNECT"@ =~= connect_method());
        reveal_strlit("HTTP/1.1");
        assert("HTTP/1.1"@ =~= http_11());
    }
    let h = match find_head_end(bytes) {
        Some(h) => h,
        None => {
            if bytes.len() > MAX_HEADER_BYTES {
                return Err(ConnectError::HeaderTooLarge);
            }
            return Err(ConnectError::Incomplete);
        },
    };
    if h > MAX_HEADER_BYTES - 4 {
        return Err(ConnectError::HeaderTooLarge);
    }
    let prefix = vstd::slice::slice_subrange(bytes, 0, h);
    assert(prefix@ == bytes@.subrange(0, h as int));
    let header = match utf8_text(prefix) {
        Some(t) => t,
        None => return Err(ConnectError::InvalidRequest),
    };
    proof {
        vstd::utf8::encode_utf8_decode_utf8(header@);
        assert(vstd::utf8::decode_utf8(bytes@.subrange(0, h as int)) == header@);
    }
    let n = header.unicode_len();
    if n == 0 {
        return Err(ConnectError::InvalidRequest);
    }
    let mut p: usize = 0;
    while p < n && header.get_char(p) != '\n'
        invariant
            p <= n,
            n == header@.len(),
            forall|k: int| 0 <= k < p ==> header@[k] != '\n',
        decreases n - p,
    {
        p = p + 1;
    }
    proof {
        if p < n {
            assert(first_index_of(header@, '\n') == Some(p as int));
        } else {
            assert(first_index_of(header@, '\n') is None);
            assert(header@.subrange(0, p as int) =~= header@);
        }
    }
    let line = header.substring_char(0, p);
    let words = first_words(line);
    if words.len() != 3 {
        return Err(ConnectError::InvalidRequest);
    }
    if !str_equal(words[0], "CONNECT") {
        return Err(ConnectError::UnsupportedMethod);
    }
    if !str_equal(words[2], "HTTP/1.1") {
        return Err(ConnectError::UnsupportedVersion);
    }
    let remaining = crate::bytes::copy_range(bytes, h + 4, bytes.len());
    Ok(ConnectHead { authority: String::from_str(words[1]), remaining })
}

impl ConnectHead {
    /// The request, given what the authority reads as when taken as a
    /// socket address; a host name is refused.
    pub fn into_request(self, target: Option<SocketAddress>) -> (request: Result<ConnectRequest, ConnectError>)
        ensures
            match target {
                Some(t) => request matches Ok(r) && r.target == t && r.remaining@ == self.remaining@,
                None => request == Err::<ConnectRequest, ConnectError>(ConnectError::HostnamesUnsupported),
            },
    {
        match target {
            Some(t) => Ok(ConnectRequest { target: t, remaining: self.remaining }),
            None => Err(ConnectError::HostnamesUnsupported),
        }
    }
}

} // verus!
