//! Transport-independent client routing policy: rules that match a flow's
//! domain, destination network or destination port, evaluated first match
//! first.
use vstd::prelude::*;

use crate::net::{IpAddress, IpView};
use crate::text::{
    ascii_lowercase, parse_unsigned, to_ascii_lowercase, trim, trim_end_char, trim_end_matches,
    trim_whitespace, unsigned_value,
};

verus! {

/// Route selected for a client flow.
#[derive(Clone, Debug, PartialEq, Eq)]
pub enum RoutingAction {
    Direct,
    Reject,
    Proxy,
    Node(String),
}

/// Mathematical content of a routing action.
pub enum ActionView {
    Direct,
    Reject,
    Proxy,
    Node(Seq<char>),
}

impl View for RoutingAction {
    type V = ActionView;

    open spec fn view(&self) -> ActionView {
        match self {
            RoutingAction::Direct => ActionView::Direct,
            RoutingAction::Reject => ActionView::Reject,
            RoutingAction::Proxy => ActionView::Proxy,
            RoutingAction::Node(id) => ActionView::Node(id@),
        }
    }
}

impl RoutingAction {
    /// A copy of this action.
    pub fn duplicate(&self) -> (copy: Self)
        ensures
            copy@ == self@,
    {
        match self {
            RoutingAction::Direct => RoutingAction::Direct,
            RoutingAction::Reject => RoutingAction::Reject,
            RoutingAction::Proxy => RoutingAction::Proxy,
            RoutingAction::Node(id) => RoutingAction::Node(id.clone()),
        }
    }
}

/// A routing configuration that cannot be used, with a description.
#[derive(Clone, Debug, PartialEq, Eq)]
pub struct RoutingError {
    message: String,
}

impl RoutingError {
    pub closed spec fn spec_message(&self) -> Seq<char> {
        self.message@
    }

    pub fn new(message: String) -> (error: Self)
        ensures
            error.spec_message() == message@,
    {
        RoutingError { message }
    }

    /// The description.
    pub fn message(&self) -> (message: &str)
        ensures
            message@ == self.spec_message(),
    {
        self.message.as_str()
    }
}

fn routing_error(message: &str) -> (error: RoutingError)
    ensures
        error.spec_message() == message@,
{
    RoutingError { message: message.to_owned() }
}

/// Inclusive destination port range.
#[derive(Clone, Copy, Debug, PartialEq, Eq, Structural)]
pub struct PortRange {
    start: u16,
    end: u16,
}

impl PortRange {
    pub closed spec fn spec_start(self) -> u16 {
        self.start
    }

    pub closed spec fn spec_end(self) -> u16 {
        self.end
    }

    /// Ports from zero excluded, and the start not after the end.
    pub closed spec fn wf(self) -> bool {
        0 < self.start <= self.end
    }

    /// The range from `start` to `end`; refused when `start` is zero or
    /// after `end`.
    pub fn new(start: u16, end: u16) -> (range: Result<Self, RoutingError>)
        ensures
            range is Ok <==> (start != 0 && start <= end),
            range matches Ok(r) ==> r.wf() && r.spec_start() == start && r.spec_end() == end,
    {
        if start == 0 || start > end {
            return Err(routing_error("destination port range is invalid"));
        }
        Ok(PortRange { start, end })
    }

    pub fn start(self) -> (start: u16)
        ensures
            start == self.spec_start(),
    {
        self.start
    }

    pub fn end(self) -> (end: u16)
        ensures
            end == self.spec_end(),
    {
        self.end
    }

    /// Whether `port` lies within the range, both ends included.
    pub fn contains(self, port: u16) -> (inside: bool)
        ensures
            inside == (self.spec_start() <= port <= self.spec_end()),
    {
        port >= self.start && port <= self.end
    }

    /// Parses `START-END` or a single port, each a port number, surrounded by
    /// optional whitespace.
    pub fn parse(source: &str) -> (range: Result<Self, RoutingError>)
        ensures
            range is Ok <==> port_range_text(source@) is Some,
            range matches Ok(r) ==> port_range_text(source@) == Some(
                (r.spec_start(), r.spec_end()),
            ) && r.wf(),
    {
        let text = trim(source);
        let (start_text, end_text) = match split_once_char(text, '-') {
            Some(parts) => parts,
            None => (text, text),
        };
        let start = match parse_unsigned(start_text, 0xffff) {
            Some(v) => v as u16,
            None => return Err(routing_error("destination port is invalid")),
        };
        let end = match parse_unsigned(end_text, 0xffff) {
            Some(v) => v as u16,
            None => return Err(routing_error("destination port is invalid")),
        };
        PortRange::new(start, end)
    }
}

/// The position of the first `c` in `s`, if any.
pub open spec fn first_index_of(s: Seq<char>, c: char) -> Option<int> {
    if exists|i: int| 0 <= i < s.len() && s[i] == c && forall|k: int| 0 <= k < i ==> s[k] != c {
        Some(choose|i: int| 0 <= i < s.len() && s[i] == c && forall|k: int| 0 <= k < i ==> s[k] != c)
    } else {
        None
    }
}

/// `s` split at its first `c`, as `str::split_once(c)` gives it.
pub open spec fn split_once_spec(s: Seq<char>, c: char) -> Option<(Seq<char>, Seq<char>)> {
    match first_index_of(s, c) {
        Some(i) => Some((s.subrange(0, i), s.subrange(i + 1, s.len() as int))),
        None => None,
    }
}

/// Splits `s` at its first `c`.
pub fn split_once_char(s: &str, c: char) -> (parts: Option<(&str, &str)>)
    ensures
        match split_once_spec(s@, c) {
            Some((a, b)) => parts matches Some(p) && p.0@ == a && p.1@ == b,
            None => parts is None,
        },
{
    let n = s.unicode_len();
    let mut i: usize = 0;
    while i < n
        invariant
            i <= n,
            n == s@.len(),
            forall|k: int| 0 <= k < i ==> s@[k] != c,
        decreases n - i,
    {
        if s.get_char(i) == c {
            proof {
                let j = choose|j: int|
                    0 <= j < s@.len() && s@[j] == c && forall|k: int| 0 <= k < j ==> s@[k] != c;
                assert(j == i as int) by {
                    if j < i {
                    } else if j > i {
                        assert(s@[i as int] == c);
                    }
                }
            }
            return Some((s.substring_char(0, i), s.substring_char(i + 1, n)));
        }
        i = i + 1;
    }
    None
}

/// The bounds that `PortRange::parse` reads from `source`, before checking
/// their order.
pub open spec fn port_range_text(source: Seq<char>) -> Option<(u16, u16)> {
    let text = trim_whitespace(source);
    let (start_text, end_text) = match split_once_spec(text, '-') {
        Some(parts) => parts,
        None => (text, text),
    };
    match (unsigned_value(start_text, 0xffff), unsigned_value(end_text, 0xffff)) {
        (Some(start), Some(end)) => if 0 < start <= end {
            Some((start as u16, end as u16))
        } else {
            None
        },
        _ => None,
    }
}

/// Whether `c` may appear in a label of a routing domain.
pub open spec fn is_label_char(c: char) -> bool {
    ('a' <= c <= 'z') || ('A' <= c <= 'Z') || ('0' <= c <= '9') || c == '-'
}

/// Whether `v` is a domain that routing rules accept: dot-separated labels
/// of ASCII letters, digits and hyphens, each label non-empty, at most 63
/// characters, not starting or ending with a hyphen, 253 characters at most.
pub open spec fn valid_routing_domain(v: Seq<char>) -> bool {
    &&& 0 < v.len() <= 253
    &&& forall|k: int| 0 <= k < v.len() ==> is_label_char(#[trigger] v[k]) || v[k] == '.'
    &&& forall|k: int|
        0 <= k < v.len() && #[trigger] v[k] == '.' ==> 0 < k && v[k - 1] != '.' && v[k - 1]
            != '-'
    &&& forall|k: int| 0 <= k < v.len() && #[trigger] v[k] == '-' ==> 0 < k && v[k - 1] != '.'
    &&& v.last() != '.'
    &&& v.last() != '-'
    &&& forall|a: int, b: int| 0 <= a <= b < v.len() && #[trigger] dot_free(v, a, b) ==> b - a < 63
}

/// Whether no character of `v` from `a` to `b`, both included, is a dot.
pub open spec fn dot_free(v: Seq<char>, a: int, b: int) -> bool {
    forall|k: int| a <= k <= b ==> #[trigger] v[k] != '.'
}

/// The canonical form of a domain given to a routing rule or a flow: without
/// surrounding whitespace or trailing dots, in small letters.
pub open spec fn canonical_domain(value: Seq<char>) -> Seq<char> {
    ascii_lowercase(trim_end_char(trim_whitespace(value), '.'))
}

/// Whether every character of `v` satisfies the label rules.
#[verifier::loop_isolation(false)]
fn is_valid_routing_domain(v: &str) -> (valid: bool)
    ensures
        valid == valid_routing_domain(v@),
{
    let n = v.unicode_len();
    if n == 0 || n > 253 {
        return false;
    }
    let mut i: usize = 0;
    let mut run: usize = 0;
    while i < n
        invariant
            i <= n,
            n == v@.len(),
            0 < n <= 253,
            run <= i,
            run < 63 || i == 0 || run == 63,
            forall|k: int| 0 <= k < i ==> is_label_char(#[trigger] v@[k]) || v@[k] == '.',
            forall|k: int|
                0 <= k < i && #[trigger] v@[k] == '.' ==> 0 < k && v@[k - 1] != '.' && v@[k - 1]
                    != '-',
            forall|k: int| 0 <= k < i && #[trigger] v@[k] == '-' ==> 0 < k && v@[k - 1] != '.',
            forall|k: int| i - run <= k < i ==> #[trigger] v@[k] != '.',
            run < i ==> v@[i - run - 1] == '.',
            run <= 63,
            forall|a: int, b: int| 0 <= a <= b < i && #[trigger] dot_free(v@, a, b) ==> b - a < 63,
        decreases n - i,
    {
        let c = v.get_char(i);
        if c == '.' {
            if i == 0 || v.get_char(i - 1) == '.' || v.get_char(i - 1) == '-' {
                return false;
            }
            run = 0;
        } else {
            let label = ('a' <= c && c <= 'z') || ('A' <= c && c <= 'Z') || ('0' <= c && c <= '9')
                || c == '-';
            if !label {
                return false;
            }
            if c == '-' && (i == 0 || v.get_char(i - 1) == '.') {
                return false;
            }
            if run == 63 {
                proof {
                    let a = i - 63;
                    assert forall|k: int| a <= k <= i implies #[trigger] v@[k] != '.' by {
                        if k < i {
                            assert(i - run <= k);
                        }
                    }
                    assert(dot_free(v@, a, i as int));
                }
                return false;
            }
            proof {
                assert forall|a: int, b: int|
                    0 <= a <= b < i + 1 && #[trigger] dot_free(v@, a, b) implies b - a < 63 by {
                    if b == i {
                        if a < i - run {
                            assert(v@[i - run - 1] != '.');
                        }
                    }
                }
            }
            run = run + 1;
        }
        i = i + 1;
    }
    let last = v.get_char(n - 1);
    last != '.' && last != '-'
}

/// Canonicalises and checks a routing domain.
pub fn normalize_domain(value: &str) -> (domain: Result<String, RoutingError>)
    ensures
        domain is Ok <==> valid_routing_domain(canonical_domain(value@)),
        domain matches Ok(d) ==> d@ == canonical_domain(value@),
{
    let trimmed = trim(value);
    let stripped = trim_end_matches(trimmed, '.');
    let lower = to_ascii_lowercase(stripped);
    if !is_valid_routing_domain(lower.as_str()) {
        return Err(routing_error("routing rule domain is invalid"));
    }
    Ok(lower)
}

/// Compares two strings character by character.
pub fn str_equal(a: &str, b: &str) -> (equal: bool)
    ensures
        equal == (a@ == b@),
{
    let n = a.unicode_len();
    if n != b.unicode_len() {
        return false;
    }
    let mut i: usize = 0;
    while i < n
        invariant
            i <= n,
            n == a@.len(),
            n == b@.len(),
            forall|k: int| 0 <= k < i ==> a@[k] == b@[k],
        decreases n - i,
    {
        if a.get_char(i) != b.get_char(i) {
            return false;
        }
        i = i + 1;
    }
    assert(a@ =~= b@);
    true
}

/// Whether `actual` is `suffix` or ends with a dot followed by `suffix`.
pub open spec fn domain_has_suffix(actual: Seq<char>, suffix: Seq<char>) -> bool {
    ||| actual == suffix
    ||| (actual.len() > suffix.len() && actual.subrange(
        actual.len() - suffix.len(),
        actual.len() as int,
    ) == suffix && actual[actual.len() - suffix.len() - 1] == '.')
}

fn has_domain_suffix(actual: &str, suffix: &str) -> (matched: bool)
    ensures
        matched == domain_has_suffix(actual@, suffix@),
{
    if str_equal(actual, suffix) {
        return true;
    }
    let n = actual.unicode_len();
    let m = suffix.unicode_len();
    if n <= m {
        return false;
    }
    let offset = n - m;
    let mut i: usize = 0;
    while i < m
        invariant
            i <= m,
            n == actual@.len(),
            m == suffix@.len(),
            offset == n - m,
            forall|k: int| 0 <= k < i ==> actual@[offset + k] == suffix@[k],
        decreases m - i,
    {
        if actual.get_char(offset + i) != suffix.get_char(i) {
            assert(actual@.subrange(offset as int, n as int)[i as int] != suffix@[i as int]);
            return false;
        }
        i = i + 1;
    }
    assert(actual@.subrange(offset as int, n as int) =~= suffix@);
    actual.get_char(offset - 1) == '.'
}

/// Suffix law: a domain has a suffix exactly when it is the suffix or some
/// name followed by a dot and the suffix, so that a suffix matches whole
/// labels only.
pub proof fn lemma_domain_suffix_labels(actual: Seq<char>, suffix: Seq<char>)
    ensures
        domain_has_suffix(actual, suffix) <==> (actual == suffix || exists|name: Seq<char>|
            actual == #[trigger] (name + seq!['.']) + suffix),
{
    if actual != suffix && domain_has_suffix(actual, suffix) {
        let name = actual.subrange(0, actual.len() - suffix.len() - 1);
        assert(actual =~= (name + seq!['.']) + suffix);
    }
    if exists|name: Seq<char>| actual == #[trigger] (name + seq!['.']) + suffix {
        let name = choose|name: Seq<char>| actual == #[trigger] (name + seq!['.']) + suffix;
        assert(actual.subrange(actual.len() - suffix.len(), actual.len() as int) =~= suffix);
        assert(actual[actual.len() - suffix.len() - 1] == '.');
    }
}

/// The mask of one octet under a prefix of which `bits` fall in it.
pub open spec fn octet_mask(bits: int) -> u8 {
    if bits >= 8 {
        0xff
    } else if bits <= 0 {
        0
    } else if bits == 1 {
        0x80
    } else if bits == 2 {
        0xc0
    } else if bits == 3 {
        0xe0
    } else if bits == 4 {
        0xf0
    } else if bits == 5 {
        0xf8
    } else if bits == 6 {
        0xfc
    } else {
        0xfe
    }
}

/// `octets` with every bit after the first `prefix` cleared.
pub open spec fn masked_octets(octets: Seq<u8>, prefix: int) -> Seq<u8> {
    Seq::new(octets.len(), |i: int| octets[i] & octet_mask(prefix - 8 * i))
}

/// An address with every bit after the first `prefix` cleared.
pub open spec fn masked_ip(ip: IpView, prefix: int) -> IpView {
    match ip {
        IpView::V4(o) => IpView::V4(masked_octets(o, prefix)),
        IpView::V6(o) => IpView::V6(masked_octets(o, prefix)),
    }
}

/// Whether two addresses are of the same family.
pub open spec fn same_family(a: IpView, b: IpView) -> bool {
    (a is V4 && b is V4) || (a is V6 && b is V6)
}

fn octet_mask_of(bits: i32) -> (mask: u8)
    ensures
        mask == octet_mask(bits as int),
{
    if bits >= 8 {
        0xff
    } else if bits <= 0 {
        0
    } else if bits == 1 {
        0x80
    } else if bits == 2 {
        0xc0
    } else if bits == 3 {
        0xe0
    } else if bits == 4 {
        0xf0
    } else if bits == 5 {
        0xf8
    } else if bits == 6 {
        0xfc
    } else {
        0xfe
    }
}

fn mask_address(address: &IpAddress, prefix: u8) -> (masked: IpAddress)
    ensures
        masked@ == masked_ip(address@, prefix as int),
{
    match address {
        IpAddress::V4(o) => {
            let mut out = [0u8; 4];
            let mut i: usize = 0;
            while i < 4
                invariant
                    i <= 4,
                    o@.len() == 4,
                    out@.len() == 4,
                    forall|k: int| 0 <= k < i ==> out@[k] == o@[k] & octet_mask(prefix - 8 * k),
                decreases 4 - i,
            {
                out[i] = o[i] & octet_mask_of(prefix as i32 - 8 * (i as i32));
                i = i + 1;
            }
            assert(out@ =~= masked_octets(o@, prefix as int));
            IpAddress::V4(out)
        },
        IpAddress::V6(o) => {
            let mut out = [0u8; 16];
            let mut i: usize = 0;
            while i < 16
                invariant
                    i <= 16,
                    o@.len() == 16,
                    out@.len() == 16,
                    forall|k: int| 0 <= k < i ==> out@[k] == o@[k] & octet_mask(prefix - 8 * k),
                decreases 16 - i,
            {
                out[i] = o[i] & octet_mask_of(prefix as i32 - 8 * (i as i32));
                i = i + 1;
            }
            assert(out@ =~= masked_octets(o@, prefix as int));
            IpAddress::V6(out)
        },
    }
}

/// An IPv4 or IPv6 network: an address with no bits set after its prefix.
#[derive(Clone, Copy, Debug, PartialEq, Eq)]
pub struct IpCidr {
    network: IpAddress,
    prefix_length: u8,
}

/// The largest prefix of an address family.
pub open spec fn max_prefix(ip: IpView) -> int {
    match ip {
        IpView::V4(_) => 32,
        IpView::V6(_) => 128,
    }
}

impl IpCidr {
    pub closed spec fn spec_network(self) -> IpView {
        self.network@
    }

    pub closed spec fn spec_prefix_length(self) -> u8 {
        self.prefix_length
    }

    /// A prefix within the family's width and a network without host bits.
    pub closed spec fn wf(self) -> bool {
        &&& self.prefix_length <= max_prefix(self.network@)
        &&& masked_ip(self.network@, self.prefix_length as int) == self.network@
    }

    /// The network `network/prefix_length`: refused when the prefix exceeds
    /// the family's width or the network has bits set after the prefix.
    pub fn new(network: IpAddress, prefix_length: u8) -> (cidr: Result<Self, RoutingError>)
        ensures
            cidr is Ok <==> (prefix_length <= max_prefix(network@) && masked_ip(
                network@,
                prefix_length as int,
            ) == network@),
            cidr matches Ok(c) ==> c.wf() && c.spec_network() == network@
                && c.spec_prefix_length() == prefix_length,
    {
        let valid = match network {
            IpAddress::V4(_) => prefix_length <= 32,
            IpAddress::V6(_) => prefix_length <= 128,
        };
        if !valid {
            return Err(routing_error("CIDR prefix length is out of range"));
        }
        let masked = mask_address(&network, prefix_length);
        if !crate::net::ip_address_equal(&masked, &network) {
            return Err(routing_error("CIDR network has host bits set"));
        }
        Ok(IpCidr { network, prefix_length })
    }

    pub fn network(self) -> (network: IpAddress)
        ensures
            network@ == self.spec_network(),
    {
        self.network
    }

    pub fn prefix_length(self) -> (prefix: u8)
        ensures
            prefix == self.spec_prefix_length(),
    {
        self.prefix_length
    }

    /// Whether `address` is of the network's family and lies in it.
    pub fn contains(self, address: IpAddress) -> (inside: bool)
        ensures
            inside == (same_family(self.spec_network(), address@) && masked_ip(
                address@,
                self.spec_prefix_length() as int,
            ) == self.spec_network()),
    {
        let same = match (self.network, address) {
            (IpAddress::V4(_), IpAddress::V4(_)) => true,
            (IpAddress::V6(_), IpAddress::V6(_)) => true,
            _ => false,
        };
        if !same {
            return false;
        }
        let masked = mask_address(&address, self.prefix_length);
        crate::net::ip_address_equal(&masked, &self.network)
    }
}

/// Bit `j` of `x`, counted from the most significant bit (`j` from 0 to 7).
pub open spec fn octet_bit(x: u8, j: int) -> bool {
    if j == 0 {
        x & 0x80 != 0
    } else if j == 1 {
        x & 0x40 != 0
    } else if j == 2 {
        x & 0x20 != 0
    } else if j == 3 {
        x & 0x10 != 0
    } else if j == 4 {
        x & 0x08 != 0
    } else if j == 5 {
        x & 0x04 != 0
    } else if j == 6 {
        x & 0x02 != 0
    } else {
        x & 0x01 != 0
    }
}

/// The octets of an address.
pub open spec fn address_octets(ip: IpView) -> Seq<u8> {
    match ip {
        IpView::V4(o) => o,
        IpView::V6(o) => o,
    }
}

/// Bit `k` of a sequence of octets, counted from the most significant bit
/// of its first octet.
pub open spec fn octets_bit(octets: Seq<u8>, k: int) -> bool {
    octet_bit(octets[k / 8], k % 8)
}

/// Bit `k` of an address, counted from the most significant bit of its
/// first octet.
pub open spec fn address_bit(ip: IpView, k: int) -> bool {
    octets_bit(address_octets(ip), k)
}

/// Whether `x` and `y` agree on their first `b` bits.
pub open spec fn octet_prefix_agrees(x: u8, y: u8, b: int) -> bool {
    forall|j: int| 0 <= j < b && j < 8 ==> octet_bit(x, j) == octet_bit(y, j)
}

proof fn lemma_octet_mask_agrees(x: u8, y: u8, b: int)
    ensures
        (x & octet_mask(b) == y & octet_mask(b)) <==> octet_prefix_agrees(x, y, b),
{
    let e0 = (x & 0x80 != 0) == (y & 0x80 != 0);
    let e1 = (x & 0x40 != 0) == (y & 0x40 != 0);
    let e2 = (x & 0x20 != 0) == (y & 0x20 != 0);
    let e3 = (x & 0x10 != 0) == (y & 0x10 != 0);
    let e4 = (x & 0x08 != 0) == (y & 0x08 != 0);
    let e5 = (x & 0x04 != 0) == (y & 0x04 != 0);
    let e6 = (x & 0x02 != 0) == (y & 0x02 != 0);
    let e7 = (x & 0x01 != 0) == (y & 0x01 != 0);
    assert(octet_prefix_agrees(x, y, b) <==> ((b > 0 ==> e0) && (b > 1 ==> e1) && (b > 2 ==> e2)
        && (b > 3 ==> e3) && (b > 4 ==> e4) && (b > 5 ==> e5) && (b > 6 ==> e6) && (b > 7 ==> e7)))
        by {
        if (b > 0 ==> e0) && (b > 1 ==> e1) && (b > 2 ==> e2) && (b > 3 ==> e3) && (b > 4 ==> e4)
            && (b > 5 ==> e5) && (b > 6 ==> e6) && (b > 7 ==> e7) {
            assert forall|j: int| 0 <= j < b && j < 8 implies octet_bit(x, j) == octet_bit(y, j) by {
            }
        }
        if octet_prefix_agrees(x, y, b) {
            if b > 0 { assert(octet_bit(x, 0) == octet_bit(y, 0)); }
            if b > 1 { assert(octet_bit(x, 1) == octet_bit(y, 1)); }
            if b > 2 { assert(octet_bit(x, 2) == octet_bit(y, 2)); }
            if b > 3 { assert(octet_bit(x, 3) == octet_bit(y, 3)); }
            if b > 4 { assert(octet_bit(x, 4) == octet_bit(y, 4)); }
            if b > 5 { assert(octet_bit(x, 5) == octet_bit(y, 5)); }
            if b > 6 { assert(octet_bit(x, 6) == octet_bit(y, 6)); }
            if b > 7 { assert(octet_bit(x, 7) == octet_bit(y, 7)); }
        }
    }
    if b >= 8 {
        assert((x & 0xff == y & 0xff) <==> (((x & 0x80 != 0) == (y & 0x80 != 0)) && ((x & 0x40 != 0) == (y & 0x40 != 0)) && ((x & 0x20 != 0) == (y & 0x20 != 0)) && ((x & 0x10 != 0) == (y & 0x10 != 0)) && ((x & 0x08 != 0) == (y & 0x08 != 0)) && ((x & 0x04 != 0) == (y & 0x04 != 0)) && ((x & 0x02 != 0) == (y & 0x02 != 0)) && ((x & 0x01 != 0) == (y & 0x01 != 0)))) by (bit_vector);
    } else if b <= 0 {
        assert(x & 0 == y & 0) by (bit_vector);
    } else if b == 1 {
        assert((x & 0x80 == y & 0x80) <==> (((x & 0x80 != 0) == (y & 0x80 != 0)))) by (bit_vector);
    } else if b == 2 {
        assert((x & 0xc0 == y & 0xc0) <==> (((x & 0x80 != 0) == (y & 0x80 != 0)) && ((x & 0x40 != 0) == (y & 0x40 != 0)))) by (bit_vector);
    } else if b == 3 {
        assert((x & 0xe0 == y & 0xe0) <==> (((x & 0x80 != 0) == (y & 0x80 != 0)) && ((x & 0x40 != 0) == (y & 0x40 != 0)) && ((x & 0x20 != 0) == (y & 0x20 != 0)))) by (bit_vector);
    } else if b == 4 {
        assert((x & 0xf0 == y & 0xf0) <==> (((x & 0x80 != 0) == (y & 0x80 != 0)) && ((x & 0x40 != 0) == (y & 0x40 != 0)) && ((x & 0x20 != 0) == (y & 0x20 != 0)) && ((x & 0x10 != 0) == (y & 0x10 != 0)))) by (bit_vector);
    } else if b == 5 {
        assert((x & 0xf8 == y & 0xf8) <==> (((x & 0x80 != 0) == (y & 0x80 != 0)) && ((x & 0x40 != 0) == (y & 0x40 != 0)) && ((x & 0x20 != 0) == (y & 0x20 != 0)) && ((x & 0x10 != 0) == (y & 0x10 != 0)) && ((x & 0x08 != 0) == (y & 0x08 != 0)))) by (bit_vector);
    } else if b == 6 {
        assert((x & 0xfc == y & 0xfc) <==> (((x & 0x80 != 0) == (y & 0x80 != 0)) && ((x & 0x40 != 0) == (y & 0x40 != 0)) && ((x & 0x20 != 0) == (y & 0x20 != 0)) && ((x & 0x10 != 0) == (y & 0x10 != 0)) && ((x & 0x08 != 0) == (y & 0x08 != 0)) && ((x & 0x04 != 0) == (y & 0x04 != 0)))) by (bit_vector);
    } else {
        assert((x & 0xfe == y & 0xfe) <==> (((x & 0x80 != 0) == (y & 0x80 != 0)) && ((x & 0x40 != 0) == (y & 0x40 != 0)) && ((x & 0x20 != 0) == (y & 0x20 != 0)) && ((x & 0x10 != 0) == (y & 0x10 != 0)) && ((x & 0x08 != 0) == (y & 0x08 != 0)) && ((x & 0x04 != 0) == (y & 0x04 != 0)) && ((x & 0x02 != 0) == (y & 0x02 != 0)))) by (bit_vector);
    }
}

proof fn lemma_masked_octets_prefix(o: Seq<u8>, n: Seq<u8>, p: int)
    requires
        o.len() == n.len(),
        0 <= p <= 8 * n.len(),
        masked_octets(n, p) == n,
    ensures
        (masked_octets(o, p) == n) <==> forall|k: int|
            0 <= k < p ==> #[trigger] octets_bit(o, k) == octets_bit(n, k),
{
    assert forall|i: int| 0 <= i < n.len() implies ((o[i] & octet_mask(p - 8 * i) == n[i])
        <==> octet_prefix_agrees(o[i], n[i], p - 8 * i)) by {
        lemma_octet_mask_agrees(o[i], n[i], p - 8 * i);
        assert(masked_octets(n, p)[i] == n[i]);
    }
    if masked_octets(o, p) == n {
        assert forall|k: int| 0 <= k < p implies #[trigger] octets_bit(o, k) == octets_bit(n, k) by {
            let i = k / 8;
            assert(0 <= i < n.len());
            assert(masked_octets(o, p)[i] == n[i]);
            assert(octet_prefix_agrees(o[i], n[i], p - 8 * i));
            assert(0 <= k % 8 < p - 8 * i && k % 8 < 8);
        }
    }
    if forall|k: int| 0 <= k < p ==> #[trigger] octets_bit(o, k) == octets_bit(n, k) {
        assert forall|i: int| 0 <= i < n.len() implies masked_octets(o, p)[i] == n[i] by {
            assert forall|j: int| 0 <= j < p - 8 * i && j < 8 implies octet_bit(o[i], j) == octet_bit(
                n[i],
                j,
            ) by {
                let k = 8 * i + j;
                assert(k / 8 == i && k % 8 == j);
                assert(octets_bit(o, k) == octets_bit(n, k));
            }
            assert(octet_prefix_agrees(o[i], n[i], p - 8 * i));
        }
        assert(masked_octets(o, p) =~= n);
    }
}

/// Network membership law: an address lies in a well-formed network, as
/// `IpCidr::contains` answers it, exactly when it is of the network's family
/// and its first `prefix_length` bits, counted from the most significant bit
/// of its first octet, are the network's.
pub proof fn lemma_cidr_membership(c: IpCidr, a: IpAddress)
    requires
        c.wf(),
    ensures
        (same_family(c.spec_network(), a@) && masked_ip(a@, c.spec_prefix_length() as int)
            == c.spec_network()) <==> (same_family(c.spec_network(), a@) && forall|k: int|
            0 <= k < c.spec_prefix_length() ==> #[trigger] address_bit(a@, k) == address_bit(
                c.spec_network(),
                k,
            )),
{
    let p = c.spec_prefix_length() as int;
    match (c.network, a) {
        (IpAddress::V4(n), IpAddress::V4(o)) => {
            lemma_masked_octets_prefix(o@, n@, p);
            assert forall|k: int| 0 <= k < p implies (#[trigger] address_bit(a@, k) == address_bit(
                c.spec_network(),
                k,
            )) == (octets_bit(o@, k) == octets_bit(n@, k)) by {}
            if forall|k: int| 0 <= k < p ==> #[trigger] octets_bit(o@, k) == octets_bit(n@, k) {
                assert forall|k: int| 0 <= k < p implies #[trigger] address_bit(a@, k)
                    == address_bit(c.spec_network(), k) by {
                    assert(octets_bit(o@, k) == octets_bit(n@, k));
                }
            }
            if forall|k: int| 0 <= k < p ==> #[trigger] address_bit(a@, k) == address_bit(
                c.spec_network(),
                k,
            ) {
                assert forall|k: int| 0 <= k < p implies #[trigger] octets_bit(o@, k) == octets_bit(
                    n@,
                    k,
                ) by {
                    assert(address_bit(a@, k) == address_bit(c.spec_network(), k));
                }
            }
        },
        (IpAddress::V6(n), IpAddress::V6(o)) => {
            lemma_masked_octets_prefix(o@, n@, p);
            assert forall|k: int| 0 <= k < p implies (#[trigger] address_bit(a@, k) == address_bit(
                c.spec_network(),
                k,
            )) == (octets_bit(o@, k) == octets_bit(n@, k)) by {}
            if forall|k: int| 0 <= k < p ==> #[trigger] octets_bit(o@, k) == octets_bit(n@, k) {
                assert forall|k: int| 0 <= k < p implies #[trigger] address_bit(a@, k)
                    == address_bit(c.spec_network(), k) by {
                    assert(octets_bit(o@, k) == octets_bit(n@, k));
                }
            }
            if forall|k: int| 0 <= k < p ==> #[trigger] address_bit(a@, k) == address_bit(
                c.spec_network(),
                k,
            ) {
                assert forall|k: int| 0 <= k < p implies #[trigger] octets_bit(o@, k) == octets_bit(
                    n@,
                    k,
                ) by {
                    assert(address_bit(a@, k) == address_bit(c.spec_network(), k));
                }
            }
        },
        _ => {},
    }
}

/// Input known when routing a flow.
#[derive(Clone, Copy, Debug, PartialEq, Eq)]
pub struct RouteContext<'a> {
    pub domain: Option<&'a str>,
    pub destination: IpAddress,
    pub destination_port: u16,
}

/// One supported rule matcher.
#[derive(Clone, Debug, PartialEq, Eq)]
pub enum RuleMatcher {
    Domain(String),
    DomainSuffix(String),
    IpCidr(IpCidr),
    DestinationPort(PortRange),
    Match,
}

impl RuleMatcher {
    /// Matches exactly one domain, given in any case and with or without a
    /// trailing dot.
    pub fn domain(value: &str) -> (matcher: Result<Self, RoutingError>)
        ensures
            matcher is Ok <==> valid_routing_domain(canonical_domain(value@)),
            matcher matches Ok(m) ==> (m matches RuleMatcher::Domain(d) && d@ == canonical_domain(
                value@,
            )),
    {
        let domain = normalize_domain(value)?;
        Ok(RuleMatcher::Domain(domain))
    }

    /// Matches a domain and every name below it.
    pub fn domain_suffix(value: &str) -> (matcher: Result<Self, RoutingError>)
        ensures
            matcher is Ok <==> valid_routing_domain(canonical_domain(value@)),
            matcher matches Ok(m) ==> (m matches RuleMatcher::DomainSuffix(d) && d@
                == canonical_domain(value@)),
    {
        let domain = normalize_domain(value)?;
        Ok(RuleMatcher::DomainSuffix(domain))
    }

    /// Whether this matcher selects a flow to `destination`, port `port`,
    /// whose canonical domain, if known, is `domain`.
    pub open spec fn spec_matches(&self, domain: Option<Seq<char>>, destination: IpView, port: u16) -> bool {
        match self {
            RuleMatcher::Domain(expected) => domain == Some(expected@),
            RuleMatcher::DomainSuffix(suffix) => domain matches Some(d) && domain_has_suffix(
                d,
                suffix@,
            ),
            RuleMatcher::IpCidr(cidr) => same_family(cidr.spec_network(), destination)
                && masked_ip(destination, cidr.spec_prefix_length() as int) == cidr.spec_network(),
            RuleMatcher::DestinationPort(range) => range.spec_start() <= port <= range.spec_end(),
            RuleMatcher::Match => true,
        }
    }

    /// Whether this matcher selects the flow in `context`, whose canonical
    /// domain, if known, is `domain`.
    pub fn matches(&self, context: &RouteContext, domain: Option<&str>) -> (matched: bool)
        ensures
            matched == self.spec_matches(
                match domain {
                    Some(d) => Some(d@),
                    None => None,
                },
                context.destination@,
                context.destination_port,
            ),
    {
        match self {
            RuleMatcher::Domain(expected) => match domain {
                Some(actual) => str_equal(actual, expected.as_str()),
                None => false,
            },
            RuleMatcher::DomainSuffix(suffix) => match domain {
                Some(actual) => has_domain_suffix(actual, suffix.as_str()),
                None => false,
            },
            RuleMatcher::IpCidr(cidr) => cidr.contains(context.destination),
            RuleMatcher::DestinationPort(range) => range.contains(context.destination_port),
            RuleMatcher::Match => true,
        }
    }
}

/// A matcher and its selected action.
#[derive(Clone, Debug, PartialEq, Eq)]
pub struct RoutingRule {
    matcher: RuleMatcher,
    action: RoutingAction,
}

impl RoutingRule {
    pub closed spec fn spec_matcher(&self) -> RuleMatcher {
        self.matcher
    }

    pub closed spec fn spec_action(&self) -> ActionView {
        self.action@
    }

    pub fn new(matcher: RuleMatcher, action: RoutingAction) -> (rule: Self)
        ensures
            rule.spec_matcher() == matcher,
            rule.spec_action() == action@,
    {
        RoutingRule { matcher, action }
    }

    pub fn matcher(&self) -> (matcher: &RuleMatcher)
        ensures
            *matcher == self.spec_matcher(),
    {
        &self.matcher
    }

    pub fn action(&self) -> (action: &RoutingAction)
        ensures
            action@ == self.spec_action(),
    {
        &self.action
    }
}

/// The action of the first rule that matches, or `Proxy` when none does.
pub open spec fn first_match_action(
    rules: Seq<RoutingRule>,
    domain: Option<Seq<char>>,
    destination: IpView,
    port: u16,
) -> ActionView
    decreases rules.len(),
{
    if rules.len() == 0 {
        ActionView::Proxy
    } else if rules[0].spec_matcher().spec_matches(domain, destination, port) {
        rules[0].spec_action()
    } else {
        first_match_action(rules.drop_first(), domain, destination, port)
    }
}

/// First-match law: the action chosen for a flow is the action of the rule
/// at the smallest position whose matcher selects the flow, and `Proxy`
/// when no rule selects it.
pub proof fn lemma_first_match_action(
    rules: Seq<RoutingRule>,
    domain: Option<Seq<char>>,
    destination: IpView,
    port: u16,
)
    ensures
        (forall|i: int| 0 <= i < rules.len() ==> !#[trigger] rules[i].spec_matcher().spec_matches(
            domain,
            destination,
            port,
        )) ==> first_match_action(rules, domain, destination, port) == ActionView::Proxy,
        forall|i: int|
            0 <= i < rules.len() && #[trigger] rules[i].spec_matcher().spec_matches(
                domain,
                destination,
                port,
            ) && (forall|j: int| 0 <= j < i ==> !#[trigger] rules[j].spec_matcher().spec_matches(
                domain,
                destination,
                port,
            )) ==> first_match_action(rules, domain, destination, port) == rules[i].spec_action(),
    decreases rules.len(),
{
    if rules.len() > 0 {
        let rest = rules.drop_first();
        lemma_first_match_action(rest, domain, destination, port);
        if forall|i: int| 0 <= i < rules.len() ==> !#[trigger] rules[i].spec_matcher().spec_matches(
            domain,
            destination,
            port,
        ) {
            assert forall|i: int| 0 <= i < rest.len() implies !#[trigger] rest[i].spec_matcher().spec_matches(
                domain,
                destination,
                port,
            ) by {
                assert(rest[i] == rules[i + 1]);
            }
        }
        assert forall|i: int|
            0 <= i < rules.len() && #[trigger] rules[i].spec_matcher().spec_matches(
                domain,
                destination,
                port,
            ) && (forall|j: int| 0 <= j < i ==> !#[trigger] rules[j].spec_matcher().spec_matches(
                domain,
                destination,
                port,
            )) implies first_match_action(rules, domain, destination, port) == rules[i].spec_action() by {
            if i > 0 {
                assert(!rules[0].spec_matcher().spec_matches(domain, destination, port));
                assert(rest[i - 1] == rules[i]);
                assert forall|j: int| 0 <= j < i - 1 implies !#[trigger] rest[j].spec_matcher().spec_matches(
                    domain,
                    destination,
                    port,
                ) by {
                    assert(rest[j] == rules[j + 1]);
                }
            }
        }
    }
}

/// The domain a flow is routed by: its canonical form, when it is valid.
pub open spec fn routed_domain(domain: Option<Seq<char>>) -> Option<Seq<char>> {
    match domain {
        Some(d) => if valid_routing_domain(canonical_domain(d)) {
            Some(canonical_domain(d))
        } else {
            None
        },
        None => None,
    }
}

/// Whether a `Match` rule, if any, is the last rule.
pub open spec fn match_rule_is_last(rules: Seq<RoutingRule>) -> bool {
    forall|i: int| 0 <= i < rules.len() - 1 ==> !(#[trigger] rules[i].spec_matcher() is Match)
}

/// Immutable, first-match-wins policy.
#[derive(Clone, Debug, PartialEq, Eq)]
pub struct RoutingPolicy {
    rules: Vec<RoutingRule>,
}

impl RoutingPolicy {
    pub closed spec fn spec_rules(&self) -> Seq<RoutingRule> {
        self.rules@
    }

    /// A policy of `rules` in order; refused when a `Match` rule is not last.
    pub fn new(rules: Vec<RoutingRule>) -> (policy: Result<Self, RoutingError>)
        ensures
            policy is Ok <==> match_rule_is_last(rules@),
            policy matches Ok(p) ==> p.spec_rules() == rules@,
    {
        let n = rules.len();
        let mut i: usize = 0;
        while i < n
            invariant
                i <= n,
                n == rules@.len(),
                forall|k: int| 0 <= k < i && k < n - 1 ==> !(#[trigger] rules@[k].spec_matcher() is Match),
            decreases n - i,
        {
            if i + 1 < n {
                match rules[i].matcher() {
                    RuleMatcher::Match => {
                        return Err(routing_error("MATCH must be the final routing rule"));
                    },
                    _ => {},
                }
            }
            i = i + 1;
        }
        Ok(RoutingPolicy { rules })
    }

    /// Sends every flow through the relay.
    pub fn proxy_all() -> (policy: Self)
        ensures
            policy.spec_rules().len() == 1,
            policy.spec_rules()[0].spec_matcher() is Match,
            policy.spec_rules()[0].spec_action() == ActionView::Proxy,
    {
        let mut rules = Vec::new();
        rules.push(RoutingRule::new(RuleMatcher::Match, RoutingAction::Proxy));
        RoutingPolicy { rules }
    }

    pub fn rules(&self) -> (rules: &[RoutingRule])
        ensures
            rules@ == self.spec_rules(),
    {
        self.rules.as_slice()
    }

    /// The action for a flow: that of the first rule matching the flow's
    /// destination, port and canonical domain (an invalid domain counts as
    /// unknown), or `Proxy` when no rule matches.
    #[verifier::loop_isolation(false)]
    pub fn decide(&self, context: &RouteContext) -> (action: RoutingAction)
        ensures
            action@ == first_match_action(
                self.spec_rules(),
                routed_domain(
                    match context.domain {
                        Some(d) => Some(d@),
                        None => None,
                    },
                ),
                context.destination@,
                context.destination_port,
            ),
    {
        let domain: Option<String> = match context.domain {
            Some(value) => match normalize_domain(value) {
                Ok(d) => Some(d),
                Err(_) => None,
            },
            None => None,
        };
        let ghost spec_domain = routed_domain(
            match context.domain {
                Some(d) => Some(d@),
                None => None,
            },
        );
        let n = self.rules.len();
        let mut i: usize = 0;
        assert(self.rules@.subrange(0, n as int) =~= self.rules@);
        while i < n
            invariant
                i <= n,
                n == self.rules@.len(),
                spec_domain == match domain {
                    Some(d) => Some(d@),
                    None => None::<Seq<char>>,
                },
                first_match_action(self.rules@, spec_domain, context.destination@, context.destination_port)
                    == first_match_action(
                    self.rules@.subrange(i as int, n as int),
                    spec_domain,
                    context.destination@,
                    context.destination_port,
                ),
            decreases n - i,
        {
            let rule = &self.rules[i];
            let matched = match &domain {
                Some(d) => rule.matcher.matches(context, Some(d.as_str())),
                None => rule.matcher.matches(context, None),
            };
            assert(self.rules@.subrange(i as int, n as int)[0] == self.rules@[i as int]);
            assert(self.rules@.subrange(i as int, n as int).drop_first() =~= self.rules@.subrange(
                i as int + 1,
                n as int,
            ));
            assert(matched == rule.spec_matcher().spec_matches(
                spec_domain,
                context.destination@,
                context.destination_port,
            ));
            if matched {
                let action = rule.action.duplicate();
                assert(first_match_action(
                    self.rules@.subrange(i as int, n as int),
                    spec_domain,
                    context.destination@,
                    context.destination_port,
                ) == self.rules@[i as int].spec_action());
                return action;
            }
            i = i + 1;
        }
        RoutingAction::Proxy
    }
}

impl Default for RoutingPolicy {
    fn default() -> (policy: Self)
        ensures
            policy.spec_rules().len() == 1,
            policy.spec_rules()[0].spec_matcher() is Match,
            policy.spec_rules()[0].spec_action() == ActionView::Proxy,
    {
        RoutingPolicy::proxy_all()
    }
}

/// `s` cut at every `c`, as `str::split(c)` gives it.
pub open spec fn split_all(s: Seq<char>, c: char) -> Seq<Seq<char>>
    decreases s.len(),
{
    match split_once_spec(s, c) {
        Some((head, tail)) => {
            if tail.len() < s.len() {
                seq![head] + split_all(tail, c)
            } else {
                seq![s]
            }
        },
        None => seq![s],
    }
}

proof fn lemma_split_once_shorter(s: Seq<char>, c: char)
    ensures
        split_once_spec(s, c) matches Some((head, tail)) ==> tail.len() < s.len(),
{
    if let Some(i) = first_index_of(s, c) {
        assert(0 <= i < s.len());
    }
}

/// Splits `s` at every `c`, trimming whitespace around each piece.
pub fn split_trimmed(s: &str, c: char) -> (pieces: Vec<&str>)
    ensures
        pieces@.len() == split_all(s@, c).len(),
        forall|i: int|
            0 <= i < pieces@.len() ==> (#[trigger] pieces@[i])@ == trim_whitespace(
                split_all(s@, c)[i],
            ),
{
    let mut pieces: Vec<&str> = Vec::new();
    let mut rest: &str = s;
    loop
        invariant
            pieces@.len() + split_all(rest@, c).len() == split_all(s@, c).len(),
            forall|i: int|
                0 <= i < pieces@.len() ==> (#[trigger] pieces@[i])@ == trim_whitespace(
                    split_all(s@, c)[i],
                ),
            split_all(s@, c).subrange(pieces@.len() as int, split_all(s@, c).len() as int)
                == split_all(rest@, c),
        decreases rest@.len(),
    {
        proof {
            lemma_split_once_shorter(rest@, c);
        }
        let ghost whole = split_all(s@, c);
        let ghost k = pieces@.len() as int;
        match split_once_char(rest, c) {
            Some((head, tail)) => {
                proof {
                    assert(split_all(rest@, c) == seq![head@] + split_all(tail@, c));
                    assert(whole.subrange(k, whole.len() as int)[0] == head@);
                    assert(whole[k] == head@);
                    assert(whole.subrange(k + 1, whole.len() as int) =~= whole.subrange(
                        k,
                        whole.len() as int,
                    ).drop_first());
                    assert((seq![head@] + split_all(tail@, c)).drop_first() =~= split_all(
                        tail@,
                        c,
                    ));
                }
                pieces.push(trim(head));
                rest = tail;
            },
            None => {
                proof {
                    assert(split_all(rest@, c) == seq![rest@]);
                    assert(whole.subrange(k, whole.len() as int)[0] == rest@);
                    assert(whole[k] == rest@);
                }
                pieces.push(trim(rest));
                return pieces;
            },
        }
    }
}

/// The action that a rule's action field names: `DIRECT`, `PROXY`,
/// `REJECT`, or `NODE:` followed by a non-empty node identifier.
pub open spec fn action_text(value: Seq<char>) -> Option<ActionView> {
    if value == seq!['D', 'I', 'R', 'E', 'C', 'T'] {
        Some(ActionView::Direct)
    } else if value == seq!['P', 'R', 'O', 'X', 'Y'] {
        Some(ActionView::Proxy)
    } else if value == seq!['R', 'E', 'J', 'E', 'C', 'T'] {
        Some(ActionView::Reject)
    } else if value.len() > 5 && value.subrange(0, 5) == seq!['N', 'O', 'D', 'E', ':'] {
        Some(ActionView::Node(value.subrange(5, value.len() as int)))
    } else {
        None
    }
}

/// Parses a rule's action field.
pub fn parse_action(value: &str) -> (action: Result<RoutingAction, RoutingError>)
    ensures
        match action_text(value@) {
            Some(a) => action matches Ok(r) && r@ == a,
            None => action is Err,
        },
{
    proof {
        reveal_strlit("DIRECT");
        assert("DIRECT"@ =~= seq!['D', 'I', 'R', 'E', 'C', 'T']);
        reveal_strlit("PROXY");
        assert("PROXY"@ =~= seq!['P', 'R', 'O', 'X', 'Y']);
        reveal_strlit("REJECT");
        assert("REJECT"@ =~= seq!['R', 'E', 'J', 'E', 'C', 'T']);
        reveal_strlit("NODE:");
        assert("NODE:"@ =~= seq!['N', 'O', 'D', 'E', ':']);
    }
    if str_equal(value, "DIRECT") {
        return Ok(RoutingAction::Direct);
    }
    if str_equal(value, "PROXY") {
        return Ok(RoutingAction::Proxy);
    }
    if str_equal(value, "REJECT") {
        return Ok(RoutingAction::Reject);
    }
    let n = value.unicode_len();
    if n > 5 && str_equal(value.substring_char(0, 5), "NODE:") {
        let id = value.substring_char(5, n);
        return Ok(RoutingAction::Node(id.to_owned()));
    }
    Err(routing_error("unknown routing action"))
}

/// The kind named by a rule's first field.
#[derive(Clone, Copy, Debug, PartialEq, Eq, Structural)]
pub enum RuleKind {
    Domain,
    DomainSuffix,
    IpCidr,
    DestinationPort,
    Match,
}

/// The kind that a rule's first field names, with the number of fields that
/// kind takes.
pub open spec fn rule_kind_text(name: Seq<char>) -> Option<(RuleKind, nat)> {
    if name == seq!['D', 'O', 'M', 'A', 'I', 'N'] {
        Some((RuleKind::Domain, 3))
    } else if name == seq!['D', 'O', 'M', 'A', 'I', 'N', '-', 'S', 'U', 'F', 'F', 'I', 'X'] {
        Some((RuleKind::DomainSuffix, 3))
    } else if name == seq!['I', 'P', '-', 'C', 'I', 'D', 'R'] {
        Some((RuleKind::IpCidr, 3))
    } else if name == seq!['D', 'S', 'T', '-', 'P', 'O', 'R', 'T'] {
        Some((RuleKind::DestinationPort, 3))
    } else if name == seq!['M', 'A', 'T', 'C', 'H'] {
        Some((RuleKind::Match, 2))
    } else {
        None
    }
}

fn rule_kind(name: &str) -> (kind: Option<(RuleKind, usize)>)
    ensures
        match rule_kind_text(name@) {
            Some((k, n)) => kind == Some((k, n as usize)),
            None => kind is None,
        },
{
    proof {
        reveal_strlit("DOMAIN");
        assert("DOMAIN"@ =~= seq!['D', 'O', 'M', 'A', 'I', 'N']);
        reveal_strlit("DOMAIN-SUFFIX");
        assert("DOMAIN-SUFFIX"@ =~= seq!['D', 'O', 'M', 'A', 'I', 'N', '-', 'S', 'U', 'F', 'F', 'I', 'X']);
        reveal_strlit("IP-CIDR");
        assert("IP-CIDR"@ =~= seq!['I', 'P', '-', 'C', 'I', 'D', 'R']);
        reveal_strlit("DST-PORT");
        assert("DST-PORT"@ =~= seq!['D', 'S', 'T', '-', 'P', 'O', 'R', 'T']);
        reveal_strlit("MATCH");
        assert("MATCH"@ =~= seq!['M', 'A', 'T', 'C', 'H']);
    }
    if str_equal(name, "DOMAIN") {
        Some((RuleKind::Domain, 3))
    } else if str_equal(name, "DOMAIN-SUFFIX") {
        Some((RuleKind::DomainSuffix, 3))
    } else if str_equal(name, "IP-CIDR") {
        Some((RuleKind::IpCidr, 3))
    } else if str_equal(name, "DST-PORT") {
        Some((RuleKind::DestinationPort, 3))
    } else if str_equal(name, "MATCH") {
        Some((RuleKind::Match, 2))
    } else {
        None
    }
}

/// The kind that a rule's first field names, when it names one.
pub open spec fn rule_kind_named(name: Seq<char>) -> RuleKind {
    match rule_kind_text(name) {
        Some((k, n)) => k,
        None => RuleKind::Match,
    }
}

/// The comma-separated fields of a text rule, each trimmed.
pub open spec fn rule_fields(source: Seq<char>) -> Seq<Seq<char>> {
    split_all(source, ',').map_values(|f: Seq<char>| trim_whitespace(f))
}

/// Whether a text rule's fields are all non-empty and name a kind with the
/// number of fields it takes.
pub open spec fn rule_shape_ok(fields: Seq<Seq<char>>) -> bool {
    &&& forall|i: int| 0 <= i < fields.len() ==> (#[trigger] fields[i]).len() > 0
    &&& rule_kind_text(fields[0]) matches Some((k, n)) && fields.len() == n
}

/// A text rule read as far as it can be without reading an IP literal: an
/// `IP-CIDR` rule keeps its network and action text.
#[derive(Debug)]
pub enum RuleText<'a> {
    Rule(RoutingRule),
    Cidr { network: &'a str, action: &'a str },
}

/// Reads one text rule `KIND,VALUE,ACTION` or `MATCH,ACTION`.
#[verifier::loop_isolation(false)]
pub fn parse_rule_text(source: &str) -> (parsed: Result<RuleText, RoutingError>)
    ensures
        parsed is Ok ==> rule_shape_ok(rule_fields(source@)),
        !rule_shape_ok(rule_fields(source@)) ==> parsed is Err,
        rule_shape_ok(rule_fields(source@)) ==> {
            let fields = rule_fields(source@);
            let kind = rule_kind_named(fields[0]);
            &&& kind == RuleKind::IpCidr ==> (parsed matches Ok(RuleText::Cidr { network, action })
                && network@ == fields[1] && action@ == fields[2])
            &&& kind == RuleKind::Match ==> match action_text(fields[1]) {
                Some(a) => parsed matches Ok(RuleText::Rule(r)) && r.spec_matcher() is Match
                    && r.spec_action() == a,
                None => parsed is Err,
            }
            &&& (kind == RuleKind::Domain || kind == RuleKind::DomainSuffix) ==> if !valid_routing_domain(canonical_domain(fields[1])) {
                parsed is Err
            } else {
                match action_text(fields[2]) {
                    Some(a) => parsed matches Ok(RuleText::Rule(r)) && r.spec_action() == a && (
                    if kind == RuleKind::Domain {
                        r.spec_matcher() matches RuleMatcher::Domain(d) && d@ == canonical_domain(fields[1])
                    } else {
                        r.spec_matcher() matches RuleMatcher::DomainSuffix(d) && d@
                            == canonical_domain(fields[1])
                    }),
                    None => parsed is Err,
                }
            }
            &&& kind == RuleKind::DestinationPort ==> match port_range_text(fields[1]) {
                None => parsed is Err,
                Some((start, end)) => match action_text(fields[2]) {
                    Some(a) => parsed matches Ok(RuleText::Rule(r)) && r.spec_action() == a && (
                    r.spec_matcher() matches RuleMatcher::DestinationPort(p) && p.spec_start()
                        == start && p.spec_end() == end),
                    None => parsed is Err,
                },
            }
        },
{
    let fields = split_trimmed(source, ',');
    proof {
        assert(fields@.len() == rule_fields(source@).len());
        assert forall|i: int| 0 <= i < fields@.len() implies (#[trigger] fields@[i])@ == rule_fields(
            source@,
        )[i] by {}
    }
    let mut i: usize = 0;
    while i < fields.len()
        invariant
            i <= fields@.len(),
            forall|k: int| 0 <= k < i ==> (#[trigger] fields@[k])@.len() > 0,
        decreases fields@.len() - i,
    {
        if fields[i].unicode_len() == 0 {
            proof {
                assert(rule_fields(source@)[i as int].len() == 0);
            }
            return Err(routing_error("routing rule fields must not be empty"));
        }
        i = i + 1;
    }
    assert(fields@.len() > 0) by {
        assert(split_all(source@, ',').len() > 0) by {
            if let Some((head, tail)) = split_once_spec(source@, ',') {
                lemma_split_once_shorter(source@, ',');
            }
        }
    }
    let (kind, count) = match rule_kind(fields[0]) {
        Some(k) => k,
        None => return Err(routing_error("invalid routing rule")),
    };
    if fields.len() != count {
        return Err(routing_error("invalid routing rule"));
    }
    match kind {
        RuleKind::Match => {
            let action = parse_action(fields[1])?;
            Ok(RuleText::Rule(RoutingRule::new(RuleMatcher::Match, action)))
        },
        RuleKind::IpCidr => Ok(RuleText::Cidr { network: fields[1], action: fields[2] }),
        RuleKind::Domain => {
            let matcher = RuleMatcher::domain(fields[1])?;
            let action = parse_action(fields[2])?;
            Ok(RuleText::Rule(RoutingRule::new(matcher, action)))
        },
        RuleKind::DomainSuffix => {
            let matcher = RuleMatcher::domain_suffix(fields[1])?;
            let action = parse_action(fields[2])?;
            Ok(RuleText::Rule(RoutingRule::new(matcher, action)))
        },
        RuleKind::DestinationPort => {
            let range = PortRange::parse(fields[1])?;
            let action = parse_action(fields[2])?;
            Ok(RuleText::Rule(RoutingRule::new(RuleMatcher::DestinationPort(range), action)))
        },
    }
}

impl IpCidr {
    /// Splits the text `NETWORK/PREFIX`, surrounded by optional whitespace,
    /// at its first slash.
    pub fn split_text(source: &str) -> (parts: Result<(&str, &str), RoutingError>)
        ensures
            match split_once_spec(trim_whitespace(source@), '/') {
                Some((a, b)) => parts matches Ok(p) && p.0@ == a && p.1@ == b,
                None => parts is Err,
            },
    {
        match split_once_char(trim(source), '/') {
            Some(parts) => Ok(parts),
            None => Err(routing_error("CIDR requires an address and prefix length")),
        }
    }

    /// The network whose address was read from the text before the slash
    /// (`None` when it was no IP address) and whose prefix is the text after.
    pub fn from_text_parts(network: Option<IpAddress>, prefix: &str) -> (cidr: Result<
        Self,
        RoutingError,
    >)
        ensures
            network is None ==> cidr is Err,
            unsigned_value(prefix@, 255) is None ==> cidr is Err,
            network matches Some(n) ==> match unsigned_value(prefix@, 255) {
                Some(p) => (cidr is Ok <==> (p <= max_prefix(n@) && masked_ip(n@, p as int) == n@))
                    && (cidr matches Ok(c) ==> c.spec_network() == n@ && c.spec_prefix_length()
                    == p),
                None => true,
            },
    {
        let network = match network {
            Some(n) => n,
            None => return Err(routing_error("CIDR address is invalid")),
        };
        let prefix = match parse_unsigned(prefix, 255) {
            Some(p) => p as u8,
            None => return Err(routing_error("CIDR prefix length is invalid")),
        };
        IpCidr::new(network, prefix)
    }
}

/// The non-blank lines of a text policy, trimmed, each with its one-based
/// line number.
pub fn policy_lines(source: &str) -> (lines: Vec<(usize, &str)>)
    ensures
        forall|i: int|
            0 <= i < lines@.len() ==> {
                let (number, line) = #[trigger] lines@[i];
                &&& 1 <= number <= split_all(source@, '\n').len()
                &&& line@ == trim_whitespace(split_all(source@, '\n')[number - 1])
                &&& line@.len() > 0
            },
        forall|i: int, j: int| 0 <= i < j < lines@.len() ==> #[trigger] lines@[i].0 < #[trigger] lines@[j].0,
        forall|k: int|
            0 <= k < split_all(source@, '\n').len() && trim_whitespace(
                #[trigger] split_all(source@, '\n')[k],
            ).len() > 0 ==> exists|i: int| 0 <= i < lines@.len() && lines@[i].0 == k + 1,
{
    let pieces = split_trimmed(source, '\n');
    let mut lines: Vec<(usize, &str)> = Vec::new();
    let mut k: usize = 0;
    while k < pieces.len()
        invariant
            k <= pieces@.len(),
            pieces@.len() == split_all(source@, '\n').len(),
            forall|i: int|
                0 <= i < pieces@.len() ==> (#[trigger] pieces@[i])@ == trim_whitespace(
                    split_all(source@, '\n')[i],
                ),
            forall|i: int|
                0 <= i < lines@.len() ==> {
                    let (number, line) = #[trigger] lines@[i];
                    &&& 1 <= number <= k
                    &&& line@ == trim_whitespace(split_all(source@, '\n')[number - 1])
                    &&& line@.len() > 0
                },
            forall|i: int, j: int| 0 <= i < j < lines@.len() ==> #[trigger] lines@[i].0 < #[trigger] lines@[j].0,
            forall|m: int|
                0 <= m < k && trim_whitespace(#[trigger] split_all(source@, '\n')[m]).len() > 0
                    ==> exists|i: int| 0 <= i < lines@.len() && lines@[i].0 == m + 1,
        decreases pieces@.len() - k,
    {
        let line = pieces[k];
        if line.unicode_len() > 0 {
            let ghost before = lines@;
            lines.push((k + 1, line));
            proof {
                assert forall|m: int|
                    0 <= m < k + 1 && trim_whitespace(#[trigger] split_all(source@, '\n')[m]).len()
                        > 0 implies exists|i: int| 0 <= i < lines@.len() && lines@[i].0 == m + 1 by {
                    if m == k {
                        assert(lines@[lines@.len() - 1].0 == m + 1);
                    } else {
                        let i = choose|i: int| 0 <= i < before.len() && before[i].0 == m + 1;
                        assert(lines@[i] == before[i]);
                    }
                }
            }
        }
        k = k + 1;
    }
    lines
}

/// Splits `s` at every `c`, as `str::split(c)` does.
pub fn split_pieces(s: &str, c: char) -> (pieces: Vec<&str>)
    ensures
        pieces@.len() == split_all(s@, c).len(),
        forall|i: int| 0 <= i < pieces@.len() ==> (#[trigger] pieces@[i])@ == split_all(s@, c)[i],
{
    let mut pieces: Vec<&str> = Vec::new();
    let mut rest: &str = s;
    loop
        invariant
            pieces@.len() + split_all(rest@, c).len() == split_all(s@, c).len(),
            forall|i: int| 0 <= i < pieces@.len() ==> (#[trigger] pieces@[i])@ == split_all(s@, c)[i],
            split_all(s@, c).subrange(pieces@.len() as int, split_all(s@, c).len() as int)
                == split_all(rest@, c),
        decreases rest@.len(),
    {
        proof {
            lemma_split_once_shorter(rest@, c);
        }
        let ghost whole = split_all(s@, c);
        let ghost k = pieces@.len() as int;
        match split_once_char(rest, c) {
            Some((head, tail)) => {
                proof {
                    assert(split_all(rest@, c) == seq![head@] + split_all(tail@, c));
                    assert(whole.subrange(k, whole.len() as int)[0] == head@);
                    assert(whole.subrange(k + 1, whole.len() as int) =~= whole.subrange(
                        k,
                        whole.len() as int,
                    ).drop_first());
                    assert((seq![head@] + split_all(tail@, c)).drop_first() =~= split_all(
                        tail@,
                        c,
                    ));
                }
                pieces.push(head);
                rest = tail;
            },
            None => {
                proof {
                    assert(split_all(rest@, c) == seq![rest@]);
                    assert(whole.subrange(k, whole.len() as int)[0] == rest@);
                }
                pieces.push(rest);
                return pieces;
            },
        }
    }
}

/// Compares two strings ignoring the case of ASCII letters.
pub fn eq_ignore_ascii_case(a: &str, b: &str) -> (equal: bool)
    ensures
        equal == (ascii_lowercase(a@) == ascii_lowercase(b@)),
{
    let n = a.unicode_len();
    if n != b.unicode_len() {
        proof {
            assert(ascii_lowercase(a@).len() != ascii_lowercase(b@).len());
        }
        return false;
    }
    let mut i: usize = 0;
    while i < n
        invariant
            i <= n,
            n == a@.len(),
            n == b@.len(),
            forall|k: int| 0 <= k < i ==> crate::text::ascii_lower(a@[k]) == crate::text::ascii_lower(b@[k]),
        decreases n - i,
    {
        let x = a.get_char(i);
        let y = b.get_char(i);
        let lx = if 'A' <= x && x <= 'Z' { ((x as u32) + 32) as u8 as char } else { x };
        let ly = if 'A' <= y && y <= 'Z' { ((y as u32) + 32) as u8 as char } else { y };
        proof {
            assert(lx == crate::text::ascii_lower(x)) by {
                if 'A' <= x <= 'Z' {
                    assert(((x as u32) + 32) < 256);
                }
            }
            assert(ly == crate::text::ascii_lower(y)) by {
                if 'A' <= y <= 'Z' {
                    assert(((y as u32) + 32) < 256);
                }
            }
        }
        if lx != ly {
            assert(ascii_lowercase(a@)[i as int] != ascii_lowercase(b@)[i as int]);
            return false;
        }
        i = i + 1;
    }
    assert(ascii_lowercase(a@) =~= ascii_lowercase(b@));
    true
}

} // verus!
