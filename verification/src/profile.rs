//! Versioned client profiles: nodes, traffic settings and routing rules,
//! validated, with every node reference normalized to a node identifier.
//! The YAML text form is read and written outside the library; a profile
//! here carries, beside each text that may name an IP address, what that
//! text reads as when taken as one.
use vstd::prelude::*;

use crate::net::{IpAddress, IpView, SocketAddress};
use crate::routing::{
    canonical_domain, max_prefix, masked_ip, port_range_text, split_all, split_once_spec,
    split_pieces, str_equal, valid_routing_domain, ActionView, IpCidr, PortRange, RoutingAction,
    RoutingPolicy, RoutingRule, RuleMatcher,
};
use crate::text::{trim, trim_whitespace, unsigned_value};

verus! {

pub const PROFILE_VERSION: u16 = 1;

pub const MAX_PROFILE_BYTES: usize = 1048576;

pub const MAX_NODES: usize = 128;

pub const MAX_RULES: usize = 10000;

/// The class of a profile refusal.
#[derive(Clone, Copy, Debug, PartialEq, Eq, Structural)]
pub enum ProfileErrorKind {
    Syntax,
    UnsupportedVersion,
    Limit,
    Validation,
}

/// A refused profile: its class and a description.
#[derive(Clone, Debug, PartialEq, Eq)]
pub struct ProfileError {
    kind: ProfileErrorKind,
    message: String,
}

impl ProfileError {
    pub closed spec fn spec_kind(&self) -> ProfileErrorKind {
        self.kind
    }

    pub closed spec fn spec_message(&self) -> Seq<char> {
        self.message@
    }

    /// An error of `kind` described by `message`.
    pub fn new(kind: ProfileErrorKind, message: &str) -> (error: Self)
        ensures
            error.spec_kind() == kind,
            error.spec_message() == message@,
    {
        ProfileError { kind, message: String::from_str(message) }
    }

    pub fn kind(&self) -> (kind: ProfileErrorKind)
        ensures
            kind == self.spec_kind(),
    {
        self.kind
    }

    pub fn message(&self) -> (message: &str)
        ensures
            message@ == self.spec_message(),
    {
        self.message.as_str()
    }
}

fn invalid(message: &str) -> (error: ProfileError)
    ensures
        error.spec_kind() == ProfileErrorKind::Validation,
{
    ProfileError::new(ProfileErrorKind::Validation, message)
}

/// Refuses profile text longer than `MAX_PROFILE_BYTES`, before it is read.
pub fn check_profile_size(length: usize) -> (checked: Result<(), ProfileError>)
    ensures
        checked is Ok <==> length <= MAX_PROFILE_BYTES,
        checked matches Err(e) ==> e.spec_kind() == ProfileErrorKind::Limit,
{
    if length > MAX_PROFILE_BYTES {
        return Err(ProfileError::new(ProfileErrorKind::Limit, "profile exceeds 1 MiB"));
    }
    Ok(())
}

/// The namespace of secret references: `secret://velum/`.
pub open spec fn secret_prefix() -> Seq<char> {
    seq!['s', 'e', 'c', 'r', 'e', 't', ':', '/', '/', 'v', 'e', 'l', 'u', 'm', '/']
}

/// An ASCII letter or digit, `-`, `_` or `.`.
pub open spec fn secret_char_ok(c: char) -> bool {
    ('a' <= c && c <= 'z') || ('A' <= c && c <= 'Z') || ('0' <= c && c <= '9') || c == '-' || c
        == '_' || c == '.'
}

/// A non-empty path segment of allowed characters other than `.` and `..`.
pub open spec fn secret_segment_ok(s: Seq<char>) -> bool {
    &&& s.len() > 0
    &&& s != seq!['.']
    &&& s != seq!['.', '.']
    &&& forall|i: int| 0 <= i < s.len() ==> secret_char_ok(#[trigger] s[i])
}

/// A reference in the namespace, of at most 512 characters, whose path is
/// non-empty and made of valid segments.
pub open spec fn secret_ref_ok(v: Seq<char>) -> bool {
    &&& v.len() > 15
    &&& v.len() <= 512
    &&& v.subrange(0, 15) == secret_prefix()
    &&& forall|i: int|
        0 <= i < split_all(v.subrange(15, v.len() as int), '/').len() ==> secret_segment_ok(
            #[trigger] split_all(v.subrange(15, v.len() as int), '/')[i],
        )
}

fn secret_segment(s: &str) -> (valid: bool)
    ensures
        valid == secret_segment_ok(s@),
{
    let n = s.unicode_len();
    if n == 0 {
        return false;
    }
    if n == 1 && s.get_char(0) == '.' {
        assert(s@ =~= seq!['.']);
        return false;
    }
    if n == 2 && s.get_char(0) == '.' && s.get_char(1) == '.' {
        assert(s@ =~= seq!['.', '.']);
        return false;
    }
    let mut i: usize = 0;
    while i < n
        invariant
            i <= n,
            n == s@.len(),
            forall|k: int| 0 <= k < i ==> secret_char_ok(#[trigger] s@[k]),
        decreases n - i,
    {
        let c = s.get_char(i);
        if !(('a' <= c && c <= 'z') || ('A' <= c && c <= 'Z') || ('0' <= c && c <= '9') || c == '-'
            || c == '_' || c == '.') {
            return false;
        }
        i = i + 1;
    }
    proof {
        if n == 1 {
            assert(s@ != seq!['.']) by {
                assert(s@[0] != '.');
            }
        }
        if n == 2 {
            assert(s@ != seq!['.', '.']) by {
                assert(s@[0] != '.' || s@[1] != '.');
            }
        }
    }
    true
}

/// An opaque reference into the platform's secure storage; secret bytes are
/// never part of a profile.
#[derive(Clone, Debug, PartialEq, Eq, Hash)]
pub struct SecretRef(String);

impl View for SecretRef {
    type V = Seq<char>;

    closed spec fn view(&self) -> Seq<char> {
        self.0@
    }
}

impl SecretRef {
    /// Accepts `secret://velum/` followed by `/`-separated segments of ASCII
    /// letters, digits, `-`, `_` and `.`, none empty, `.` or `..`; at most
    /// 512 characters in all.
    #[verifier::loop_isolation(false)]
    pub fn parse(value: String) -> (secret: Result<Self, ProfileError>)
        ensures
            secret is Ok <==> secret_ref_ok(value@),
            secret matches Ok(s) ==> s@ == value@,
            secret matches Err(e) ==> e.spec_kind() == ProfileErrorKind::Validation,
    {
        proof {
            reveal_strlit("secret://velum/");
            assert("secret://velum/"@ =~= secret_prefix());
        }
        let n = value.unicode_len();
        if n < 15 || !str_equal(value.as_str().substring_char(0, 15), "secret://velum/") {
            return Err(invalid("secret reference must use secret://velum/ namespace"));
        }
        if n == 15 || n > 512 {
            return Err(invalid("secret reference is invalid"));
        }
        let path = value.as_str().substring_char(15, n);
        let segments = split_pieces(path, '/');
        let mut i: usize = 0;
        while i < segments.len()
            invariant
                i <= segments@.len(),
                segments@.len() == split_all(path@, '/').len(),
                forall|k: int| 0 <= k < i ==> secret_segment_ok(#[trigger] split_all(path@, '/')[k]),
            decreases segments@.len() - i,
        {
            if !secret_segment(segments[i]) {
                return Err(invalid("secret reference is invalid"));
            }
            i = i + 1;
        }
        Ok(SecretRef(value))
    }

    pub fn as_str(&self) -> (text: &str)
        ensures
            text@ == self@,
    {
        self.0.as_str()
    }

    /// The reference as owned text.
    pub fn into_string(self) -> (text: String)
        ensures
            text@ == self@,
    {
        self.0
    }
}

/// How a node's certificate is trusted.
#[derive(Clone, Debug, PartialEq, Eq)]
pub enum TrustConfig {
    System,
    CustomCa { ca_ref: SecretRef },
}

impl TrustConfig {
    /// The custom authority's reference, if any.
    pub fn ca_ref(&self) -> (reference: Option<&SecretRef>)
        ensures
            match self {
                TrustConfig::System => reference is None,
                TrustConfig::CustomCa { ca_ref } => reference == Some(ca_ref),
            },
    {
        match self {
            TrustConfig::System => None,
            TrustConfig::CustomCa { ca_ref } => Some(ca_ref),
        }
    }
}

/// Which local adapter a client prefers.
#[derive(Clone, Copy, Debug, PartialEq, Eq, Structural)]
pub enum PreferredAdapter {
    SystemProxy,
    Tun,
}

/// The local system proxy.
#[derive(Clone, Debug, PartialEq, Eq)]
pub struct SystemProxyConfig {
    pub port: u16,
    pub bypass: Vec<String>,
}

/// A TUN interface address and prefix; unlike a routing network, host bits
/// are kept.
#[derive(Clone, Copy, Debug, PartialEq, Eq)]
pub struct InterfaceAddress {
    address: IpAddress,
    prefix_length: u8,
}

impl InterfaceAddress {
    pub closed spec fn spec_address(self) -> IpAddress {
        self.address
    }

    pub closed spec fn spec_prefix_length(self) -> u8 {
        self.prefix_length
    }

    /// Accepts a prefix within the address family's width.
    pub fn new(address: IpAddress, prefix_length: u8) -> (interface: Result<Self, ProfileError>)
        ensures
            interface is Ok <==> prefix_length <= max_prefix(address@),
            interface matches Ok(i) ==> i.spec_address() == address && i.spec_prefix_length()
                == prefix_length,
            interface matches Err(e) ==> e.spec_kind() == ProfileErrorKind::Validation,
    {
        let valid = match address {
            IpAddress::V4(_) => prefix_length <= 32,
            IpAddress::V6(_) => prefix_length <= 128,
        };
        if !valid {
            return Err(invalid("interface prefix length is out of range"));
        }
        Ok(InterfaceAddress { address, prefix_length })
    }

    pub fn address(self) -> (address: IpAddress)
        ensures
            address == self.spec_address(),
    {
        self.address
    }

    pub fn prefix_length(self) -> (prefix: u8)
        ensures
            prefix == self.spec_prefix_length(),
    {
        self.prefix_length
    }
}

/// The TUN interface a client installs.
#[derive(Clone, Debug, PartialEq, Eq)]
pub struct TunConfig {
    pub mtu: u16,
    pub ipv4: InterfaceAddress,
    pub ipv6: InterfaceAddress,
    pub dns: Vec<IpAddress>,
}

/// Local traffic capture.
#[derive(Clone, Debug, PartialEq, Eq)]
pub struct TrafficConfig {
    pub preferred_adapter: PreferredAdapter,
    pub system_proxy: SystemProxyConfig,
    pub tun: TunConfig,
}

/// How routing decisions are made.
#[derive(Clone, Copy, Debug, PartialEq, Eq, Structural)]
pub enum RoutingMode {
    Rule,
}

/// The matcher of a profile rule.
#[derive(Clone, Debug, PartialEq, Eq)]
pub enum MatchConfig {
    Domain { value: String },
    DomainSuffix { value: String },
    /// `value` is `NETWORK/PREFIX`; `network` is what its part before the
    /// slash reads as when taken as an IP address.
    IpCidr { value: String, network: Option<IpAddress> },
    DstPort { value: String },
    Match,
}

/// The action of a profile rule; a node is named by identifier or alias.
#[derive(Clone, Debug, PartialEq, Eq)]
pub enum ActionConfig {
    Direct,
    Reject,
    Proxy,
    Node { target: String },
}

/// One profile rule.
#[derive(Clone, Debug, PartialEq, Eq)]
pub struct RuleConfig {
    pub matcher: MatchConfig,
    pub action: ActionConfig,
}

/// The routing section of a profile.
#[derive(Clone, Debug, PartialEq, Eq)]
pub struct RoutingConfig {
    pub mode: RoutingMode,
    pub rules: Vec<RuleConfig>,
}

/// The profile's own identity and default node.
#[derive(Clone, Debug, PartialEq, Eq)]
pub struct ProfileMetadata {
    pub id: String,
    pub name: String,
    pub default_node: String,
}

/// One relay node.
#[derive(Clone, Debug, PartialEq, Eq)]
pub struct NodeConfig {
    pub id: String,
    pub alias: Option<String>,
    pub relay_address: SocketAddress,
    pub server_name: String,
    /// What `server_name` reads as when taken as an IP address.
    pub server_address: Option<IpAddress>,
    pub credential_ref: SecretRef,
    pub trust: TrustConfig,
}

/// A versioned client profile.
#[derive(Clone, Debug, PartialEq, Eq)]
pub struct ClientProfile {
    pub version: u16,
    pub profile: ProfileMetadata,
    pub nodes: Vec<NodeConfig>,
    pub traffic: TrafficConfig,
    pub routing: RoutingConfig,
}

/// A lower-case letter or digit, or, after the first character, `-` or `_`.
pub open spec fn identifier_char_ok(c: char, first: bool) -> bool {
    ('a' <= c && c <= 'z') || ('0' <= c && c <= '9') || (!first && (c == '-' || c == '_'))
}

/// An identifier of 1 to 64 allowed characters.
pub open spec fn identifier_ok(v: Seq<char>) -> bool {
    &&& 0 < v.len() <= 64
    &&& forall|i: int| 0 <= i < v.len() ==> identifier_char_ok(#[trigger] v[i], i == 0)
}

/// Checks an identifier.
pub fn validate_identifier(value: &str) -> (valid: bool)
    ensures
        valid == identifier_ok(value@),
{
    let n = value.unicode_len();
    if n == 0 || n > 64 {
        return false;
    }
    let mut i: usize = 0;
    while i < n
        invariant
            i <= n,
            n == value@.len(),
            forall|k: int| 0 <= k < i ==> identifier_char_ok(#[trigger] value@[k], k == 0),
        decreases n - i,
    {
        let c = value.get_char(i);
        if !(('a' <= c && c <= 'z') || ('0' <= c && c <= '9') || (i > 0 && (c == '-' || c == '_'))) {
            assert(!identifier_char_ok(value@[i as int], i == 0));
            return false;
        }
        i = i + 1;
    }
    true
}

/// A name that is not blank and has at most 128 octets.
pub open spec fn profile_name_ok(name: Seq<char>) -> bool {
    trim_whitespace(name).len() > 0 && vstd::utf8::encode_utf8(name).len() <= 128
}

/// A server name that is an IP address (`address` is what it reads as) or
/// a valid domain.
pub open spec fn server_name_valid(name: Seq<char>, address: Option<IpAddress>) -> bool {
    address is Some || valid_routing_domain(canonical_domain(name))
}

/// A node's server name is valid.
pub open spec fn server_name_ok(node: NodeConfig) -> bool {
    server_name_valid(node.server_name@, node.server_address)
}

/// A node whose identifier, alias and server name are valid.
pub open spec fn node_ok(node: NodeConfig) -> bool {
    &&& identifier_ok(node.id@)
    &&& node.alias matches Some(a) ==> identifier_ok(a@)
    &&& server_name_ok(node)
}

/// The names by which a node is referenced, each with its identifier.
pub open spec fn node_references(node: NodeConfig) -> Seq<(Seq<char>, Seq<char>)> {
    match node.alias {
        Some(a) => seq![(node.id@, node.id@), (a@, node.id@)],
        None => seq![(node.id@, node.id@)],
    }
}

/// Every reference of `nodes`, in order: each node's identifier, then its
/// alias.
pub open spec fn references_of(nodes: Seq<NodeConfig>) -> Seq<(Seq<char>, Seq<char>)>
    decreases nodes.len(),
{
    if nodes.len() == 0 {
        Seq::empty()
    } else {
        references_of(nodes.drop_last()) + node_references(nodes.last())
    }
}

/// No name references two nodes.
pub open spec fn names_distinct(references: Seq<(Seq<char>, Seq<char>)>) -> bool {
    forall|i: int, j: int|
        0 <= i < j < references.len() ==> #[trigger] references[i].0 != #[trigger] references[j].0
}

/// The identifier that `name` references, if any.
pub open spec fn resolve_reference(references: Seq<(Seq<char>, Seq<char>)>, name: Seq<char>) -> Option<
    Seq<char>,
> {
    if exists|i: int| 0 <= i < references.len() && #[trigger] references[i].0 == name {
        Some(references[choose|i: int| 0 <= i < references.len() && #[trigger] references[i].0 == name].1)
    } else {
        None
    }
}

/// The references of a table built so far.
pub open spec fn table_view(table: Seq<(String, String)>) -> Seq<(Seq<char>, Seq<char>)> {
    table.map_values(|entry: (String, String)| (entry.0@, entry.1@))
}

proof fn lemma_references_step(nodes: Seq<NodeConfig>, j: int)
    requires
        0 <= j < nodes.len(),
    ensures
        references_of(nodes.take(j + 1)) == references_of(nodes.take(j)) + node_references(nodes[j]),
{
    assert(nodes.take(j + 1).drop_last() =~= nodes.take(j));
}

proof fn lemma_references_prefix(nodes: Seq<NodeConfig>, j: int)
    requires
        0 <= j <= nodes.len(),
    ensures
        references_of(nodes.take(j)).len() <= references_of(nodes).len(),
        forall|i: int|
            0 <= i < references_of(nodes.take(j)).len() ==> #[trigger] references_of(nodes.take(j))[i]
                == references_of(nodes)[i],
    decreases nodes.len() - j,
{
    if j == nodes.len() {
        assert(nodes.take(j) =~= nodes);
    } else {
        lemma_references_step(nodes, j);
        lemma_references_prefix(nodes, j + 1);
        let short = references_of(nodes.take(j));
        let next = references_of(nodes.take(j + 1));
        assert forall|i: int| 0 <= i < short.len() implies #[trigger] short[i] == references_of(
            nodes,
        )[i] by {
            assert(next[i] == short[i]);
        }
    }
}

fn name_in(table: &Vec<(String, String)>, name: &str) -> (found: Option<usize>)
    ensures
        match found {
            Some(i) => i < table@.len() && table_view(table@)[i as int].0 == name@ && forall|k: int|
                0 <= k < i ==> table_view(table@)[k].0 != name@,
            None => forall|k: int| 0 <= k < table@.len() ==> #[trigger] table_view(table@)[k].0 != name@,
        },
{
    let mut i: usize = 0;
    while i < table.len()
        invariant
            i <= table@.len(),
            forall|k: int| 0 <= k < i ==> #[trigger] table_view(table@)[k].0 != name@,
        decreases table@.len() - i,
    {
        if str_equal(table[i].0.as_str(), name) {
            return Some(i);
        }
        i = i + 1;
    }
    None
}

/// Adds a reference unless its name is taken.
fn add_reference(table: &mut Vec<(String, String)>, name: &String, id: &String) -> (added: bool)
    ensures
        added <==> forall|k: int| 0 <= k < old(table)@.len() ==> #[trigger] table_view(old(table)@)[k].0
            != name@,
        added ==> table_view(final(table)@) == table_view(old(table)@).push((name@, id@)),
        !added ==> final(table)@ == old(table)@,
{
    match name_in(table, name.as_str()) {
        Some(_) => false,
        None => {
            table.push((name.clone(), id.clone()));
            assert(table_view(table@) =~= table_view(old(table)@).push((name@, id@)));
            true
        },
    }
}

/// Checks a server name, given what it reads as when taken as an IP address.
pub fn valid_server_name(name: &str, address: Option<IpAddress>) -> (valid: bool)
    ensures
        valid == server_name_valid(name@, address),
{
    if address.is_some() {
        return true;
    }
    RuleMatcher::domain(name).is_ok()
}

/// The reference table of `nodes`: refused when a node is invalid or a name
/// references two nodes.
#[verifier::loop_isolation(false)]
fn reference_table(nodes: &Vec<NodeConfig>) -> (table: Result<Vec<(String, String)>, ProfileError>)
    ensures
        table is Ok <==> (forall|i: int| 0 <= i < nodes@.len() ==> node_ok(#[trigger] nodes@[i]))
            && names_distinct(references_of(nodes@)),
        table matches Ok(t) ==> table_view(t@) == references_of(nodes@),
        table matches Err(e) ==> e.spec_kind() == ProfileErrorKind::Validation,
{
    let mut table: Vec<(String, String)> = Vec::new();
    let mut j: usize = 0;
    assert(nodes@.take(0) =~= Seq::<NodeConfig>::empty());
    assert(table_view(table@) =~= Seq::<(Seq<char>, Seq<char>)>::empty());
    while j < nodes.len()
        invariant
            j <= nodes@.len(),
            table_view(table@) == references_of(nodes@.take(j as int)),
            names_distinct(table_view(table@)),
            forall|i: int| 0 <= i < j ==> node_ok(#[trigger] nodes@[i]),
        decreases nodes@.len() - j,
    {
        proof {
            lemma_references_step(nodes@, j as int);
            lemma_references_prefix(nodes@, j as int + 1);
        }
        let node = &nodes[j];
        if !validate_identifier(node.id.as_str()) {
            return Err(invalid("node id is invalid"));
        }
        let ghost before = table_view(table@);
        if !add_reference(&mut table, &node.id, &node.id) {
            proof {
                let k = choose|k: int| 0 <= k < before.len() && !(#[trigger] before[k].0 != node.id@);
                let next = references_of(nodes@.take(j + 1));
                let whole = references_of(nodes@);
                assert(next[k] == before[k]);
                assert(next[before.len() as int] == node_references(nodes@[j as int])[0]);
                assert(whole[k] == next[k] && whole[before.len() as int] == next[before.len() as int]);
                assert(before.len() < next.len() <= whole.len());
                assert(whole[k].0 == whole[before.len() as int].0);
                assert(!names_distinct(whole));
            }
            return Err(invalid("duplicate node id or alias"));
        }
        match &node.alias {
            Some(alias) => {
                if !validate_identifier(alias.as_str()) {
                    return Err(invalid("node alias is invalid"));
                }
                let ghost middle = table_view(table@);
                if !add_reference(&mut table, alias, &node.id) {
                    proof {
                        let k = choose|k: int| 0 <= k < middle.len() && !(#[trigger] middle[k].0 != alias@);
                        let next = references_of(nodes@.take(j + 1));
                        let whole = references_of(nodes@);
                        assert(middle == before.push((node.id@, node.id@)));
                        assert(next[k] == middle[k]);
                        assert(next[middle.len() as int] == node_references(nodes@[j as int])[1]);
                        assert(whole[k] == next[k] && whole[middle.len() as int] == next[middle.len() as int]);
                        assert(middle.len() < next.len() <= whole.len());
                        assert(whole[k].0 == whole[middle.len() as int].0);
                        assert(!names_distinct(whole));
                    }
                    return Err(invalid("duplicate node id or alias"));
                }
            },
            None => {},
        }
        if !valid_server_name(node.server_name.as_str(), node.server_address) {
            return Err(invalid("server name is invalid"));
        }
        proof {
            assert(table_view(table@) =~= before + node_references(nodes@[j as int]));
        }
        j = j + 1;
    }
    assert(nodes@.take(j as int) =~= nodes@);
    Ok(table)
}

/// Resolves a node reference through a table.
fn resolve_in(table: &Vec<(String, String)>, name: &str) -> (id: Option<String>)
    requires
        names_distinct(table_view(table@)),
    ensures
        match resolve_reference(table_view(table@), name@) {
            Some(i) => id matches Some(s) && s@ == i,
            None => id is None,
        },
{
    match name_in(table, name) {
        Some(i) => {
            proof {
                let refs = table_view(table@);
                let c = choose|c: int| 0 <= c < refs.len() && #[trigger] refs[c].0 == name@;
                assert(refs[i as int].0 == name@);
                if c != i as int {
                    if c < i {
                        assert(refs[c].0 != refs[i as int].0);
                    } else {
                        assert(refs[i as int].0 != refs[c].0);
                    }
                }
            }
            Some(table[i].1.clone())
        },
        None => None,
    }
}

/// The network and prefix that a CIDR text names, given what its part
/// before the slash reads as.
pub open spec fn cidr_parts(value: Seq<char>, network: Option<IpAddress>) -> Option<(IpView, u8)> {
    match split_once_spec(trim_whitespace(value), '/') {
        Some((_, prefix)) => match network {
            Some(n) => match unsigned_value(prefix, 255) {
                Some(p) => if p <= max_prefix(n@) && masked_ip(n@, p as int) == n@ {
                    Some((n@, p as u8))
                } else {
                    None
                },
                None => None,
            },
            None => None,
        },
        None => None,
    }
}

/// Whether a rule matcher can be compiled.
pub open spec fn matcher_ok(m: MatchConfig) -> bool {
    match m {
        MatchConfig::Domain { value } => valid_routing_domain(canonical_domain(value@)),
        MatchConfig::DomainSuffix { value } => valid_routing_domain(canonical_domain(value@)),
        MatchConfig::IpCidr { value, network } => cidr_parts(value@, network) is Some,
        MatchConfig::DstPort { value } => port_range_text(value@) is Some,
        MatchConfig::Match => true,
    }
}

/// Whether `r` is the compiled form of `m`.
pub open spec fn matcher_compiled(m: MatchConfig, r: RuleMatcher) -> bool {
    match m {
        MatchConfig::Domain { value } => r matches RuleMatcher::Domain(d) && d@ == canonical_domain(
            value@,
        ),
        MatchConfig::DomainSuffix { value } => r matches RuleMatcher::DomainSuffix(d) && d@
            == canonical_domain(value@),
        MatchConfig::IpCidr { value, network } => r matches RuleMatcher::IpCidr(c) && cidr_parts(
            value@,
            network,
        ) == Some((c.spec_network(), c.spec_prefix_length())),
        MatchConfig::DstPort { value } => r matches RuleMatcher::DestinationPort(p) && port_range_text(
            value@,
        ) == Some((p.spec_start(), p.spec_end())),
        MatchConfig::Match => r is Match,
    }
}

/// The action a profile action stands for, with a node reference resolved;
/// `None` for a reference to no node.
pub open spec fn action_resolved(a: ActionConfig, references: Seq<(Seq<char>, Seq<char>)>) -> Option<
    ActionView,
> {
    match a {
        ActionConfig::Direct => Some(ActionView::Direct),
        ActionConfig::Reject => Some(ActionView::Reject),
        ActionConfig::Proxy => Some(ActionView::Proxy),
        ActionConfig::Node { target } => match resolve_reference(references, target@) {
            Some(id) => Some(ActionView::Node(id)),
            None => None,
        },
    }
}

/// The action a profile action names as it stands.
pub open spec fn action_view(a: ActionConfig) -> ActionView {
    match a {
        ActionConfig::Direct => ActionView::Direct,
        ActionConfig::Reject => ActionView::Reject,
        ActionConfig::Proxy => ActionView::Proxy,
        ActionConfig::Node { target } => ActionView::Node(target@),
    }
}

/// Whether `r` is the compiled form of profile rule `c`.
pub open spec fn rule_compiled(c: RuleConfig, references: Seq<(Seq<char>, Seq<char>)>, r: RoutingRule) -> bool {
    matcher_compiled(c.matcher, r.spec_matcher()) && Some(r.spec_action()) == action_resolved(
        c.action,
        references,
    )
}

/// Every rule compiles and resolves, and a `match` rule comes last.
pub open spec fn rules_ok(rules: Seq<RuleConfig>, references: Seq<(Seq<char>, Seq<char>)>) -> bool {
    &&& forall|i: int|
        0 <= i < rules.len() ==> matcher_ok(#[trigger] rules[i].matcher) && action_resolved(
            rules[i].action,
            references,
        ) is Some
    &&& forall|i: int| 0 <= i < rules.len() - 1 ==> !(#[trigger] rules[i].matcher is Match)
}

/// An MTU from 576 to 9000, interface addresses of the right families and
/// at least one DNS server.
pub open spec fn tun_ok(t: TunConfig) -> bool {
    &&& 576 <= t.mtu <= 9000
    &&& t.ipv4.spec_address() is V4
    &&& t.ipv6.spec_address() is V6
    &&& t.dns@.len() > 0
}

/// Why a profile is refused, if it is: its version, its identity, its
/// bounds, then everything else.
pub open spec fn profile_refusal(p: ClientProfile) -> Option<ProfileErrorKind> {
    let references = references_of(p.nodes@);
    if p.version != PROFILE_VERSION {
        Some(ProfileErrorKind::UnsupportedVersion)
    } else if !identifier_ok(p.profile.id@) || !profile_name_ok(p.profile.name@) {
        Some(ProfileErrorKind::Validation)
    } else if p.nodes@.len() == 0 || p.nodes@.len() > MAX_NODES || p.routing.rules@.len() > MAX_RULES {
        Some(ProfileErrorKind::Limit)
    } else if !((forall|i: int| 0 <= i < p.nodes@.len() ==> node_ok(#[trigger] p.nodes@[i]))
        && names_distinct(references) && resolve_reference(references, p.profile.default_node@) is Some
        && rules_ok(p.routing.rules@, references) && tun_ok(p.traffic.tun)) {
        Some(ProfileErrorKind::Validation)
    } else {
        None
    }
}

impl MatchConfig {
    /// A copy of this matcher.
    pub fn duplicate(&self) -> (copy: Self)
        ensures
            copy == *self,
    {
        match self {
            MatchConfig::Domain { value } => MatchConfig::Domain { value: value.clone() },
            MatchConfig::DomainSuffix { value } => MatchConfig::DomainSuffix { value: value.clone() },
            MatchConfig::IpCidr { value, network } => MatchConfig::IpCidr {
                value: value.clone(),
                network: *network,
            },
            MatchConfig::DstPort { value } => MatchConfig::DstPort { value: value.clone() },
            MatchConfig::Match => MatchConfig::Match,
        }
    }

    /// The routing matcher this stands for; refused when it names no valid
    /// domain, network or port range.
    pub fn compile(&self) -> (matcher: Result<RuleMatcher, ProfileError>)
        ensures
            matcher is Ok <==> matcher_ok(*self),
            matcher matches Ok(r) ==> matcher_compiled(*self, r),
            matcher matches Err(e) ==> e.spec_kind() == ProfileErrorKind::Validation,
    {
        match self {
            MatchConfig::Domain { value } => match RuleMatcher::domain(value.as_str()) {
                Ok(m) => Ok(m),
                Err(e) => Err(invalid(e.message())),
            },
            MatchConfig::DomainSuffix { value } => match RuleMatcher::domain_suffix(value.as_str()) {
                Ok(m) => Ok(m),
                Err(e) => Err(invalid(e.message())),
            },
            MatchConfig::IpCidr { value, network } => {
                let (_, prefix) = match IpCidr::split_text(value.as_str()) {
                    Ok(parts) => parts,
                    Err(e) => return Err(invalid(e.message())),
                };
                match IpCidr::from_text_parts(*network, prefix) {
                    Ok(c) => Ok(RuleMatcher::IpCidr(c)),
                    Err(e) => Err(invalid(e.message())),
                }
            },
            MatchConfig::DstPort { value } => match PortRange::parse(value.as_str()) {
                Ok(r) => Ok(RuleMatcher::DestinationPort(r)),
                Err(e) => Err(invalid(e.message())),
            },
            MatchConfig::Match => Ok(RuleMatcher::Match),
        }
    }
}

fn compile_action(action: &ActionConfig, table: &Vec<(String, String)>) -> (compiled: Result<
    RoutingAction,
    ProfileError,
>)
    requires
        names_distinct(table_view(table@)),
    ensures
        match action_resolved(*action, table_view(table@)) {
            Some(a) => compiled matches Ok(r) && r@ == a,
            None => compiled matches Err(e) && e.spec_kind() == ProfileErrorKind::Validation,
        },
{
    match action {
        ActionConfig::Direct => Ok(RoutingAction::Direct),
        ActionConfig::Reject => Ok(RoutingAction::Reject),
        ActionConfig::Proxy => Ok(RoutingAction::Proxy),
        ActionConfig::Node { target } => match resolve_in(table, target.as_str()) {
            Some(id) => Ok(RoutingAction::Node(id)),
            None => Err(invalid("node reference does not exist")),
        },
    }
}

impl ClientProfile {
    /// The resolved default node and the compiled rules of a valid profile.
    #[verifier::loop_isolation(false)]
    fn check(&self) -> (checked: Result<(String, Vec<RoutingRule>), ProfileError>)
        ensures
            match profile_refusal(*self) {
                Some(k) => checked matches Err(e) && e.spec_kind() == k,
                None => checked matches Ok((d, rules)) && {
                    let references = references_of(self.nodes@);
                    &&& resolve_reference(references, self.profile.default_node@) == Some(d@)
                    &&& rules@.len() == self.routing.rules@.len()
                    &&& forall|i: int|
                        0 <= i < rules@.len() ==> rule_compiled(
                            self.routing.rules@[i],
                            references,
                            #[trigger] rules@[i],
                        )
                },
            },
    {
        if self.version != PROFILE_VERSION {
            return Err(ProfileError::new(ProfileErrorKind::UnsupportedVersion, "unsupported profile version"));
        }
        if !validate_identifier(self.profile.id.as_str()) {
            return Err(invalid("profile id is invalid"));
        }
        if trim(self.profile.name.as_str()).unicode_len() == 0 || self.profile.name.as_str().as_bytes().len() > 128 {
            return Err(invalid("profile name is invalid"));
        }
        if self.nodes.len() == 0 || self.nodes.len() > MAX_NODES {
            return Err(ProfileError::new(ProfileErrorKind::Limit, "profile must contain 1 to 128 nodes"));
        }
        if self.routing.rules.len() > MAX_RULES {
            return Err(ProfileError::new(ProfileErrorKind::Limit, "profile exceeds 10000 routing rules"));
        }
        let table = reference_table(&self.nodes)?;
        let default = match resolve_in(&table, self.profile.default_node.as_str()) {
            Some(d) => d,
            None => return Err(invalid("node reference does not exist")),
        };
        let ghost references = references_of(self.nodes@);
        let n = self.routing.rules.len();
        let mut compiled: Vec<RoutingRule> = Vec::new();
        let mut i: usize = 0;
        while i < n
            invariant
                i <= n,
                n == self.routing.rules@.len(),
                table_view(table@) == references,
                compiled@.len() == i,
                forall|k: int| 0 <= k < i ==> rule_compiled(self.routing.rules@[k], references, #[trigger] compiled@[k]),
                forall|k: int|
                    0 <= k < i ==> matcher_ok(#[trigger] self.routing.rules@[k].matcher) && action_resolved(
                        self.routing.rules@[k].action,
                        references,
                    ) is Some,
                forall|k: int| 0 <= k < i && k < n - 1 ==> !(#[trigger] self.routing.rules@[k].matcher is Match),
            decreases n - i,
        {
            let rule = &self.routing.rules[i];
            let matcher = rule.matcher.compile()?;
            let action = compile_action(&rule.action, &table)?;
            if i + 1 < n {
                match &rule.matcher {
                    MatchConfig::Match => {
                        return Err(invalid("MATCH must be the final routing rule"));
                    },
                    _ => {},
                }
            }
            compiled.push(RoutingRule::new(matcher, action));
            i = i + 1;
        }
        let tun = &self.traffic.tun;
        if tun.mtu < 576 || tun.mtu > 9000 {
            return Err(invalid("TUN MTU is out of range"));
        }
        let families = match (tun.ipv4.address(), tun.ipv6.address()) {
            (IpAddress::V4(_), IpAddress::V6(_)) => true,
            _ => false,
        };
        if !families {
            return Err(invalid("TUN ipv4 and ipv6 networks use the wrong address family"));
        }
        if tun.dns.len() == 0 {
            return Err(invalid("TUN DNS list must not be empty"));
        }
        Ok((default, compiled))
    }
}

/// `new` is `old` with its default node and every node action naming the
/// referenced node by identifier, and nothing else changed.
pub open spec fn normalized_profile(old: ClientProfile, new: ClientProfile) -> bool {
    let references = references_of(old.nodes@);
    &&& new.version == old.version
    &&& new.profile.id == old.profile.id
    &&& new.profile.name == old.profile.name
    &&& resolve_reference(references, old.profile.default_node@) == Some(new.profile.default_node@)
    &&& new.nodes == old.nodes
    &&& new.traffic == old.traffic
    &&& new.routing.mode == old.routing.mode
    &&& new.routing.rules@.len() == old.routing.rules@.len()
    &&& forall|i: int|
        0 <= i < old.routing.rules@.len() ==> (#[trigger] new.routing.rules@[i]).matcher
            == old.routing.rules@[i].matcher && Some(action_view(new.routing.rules@[i].action))
            == action_resolved(old.routing.rules@[i].action, references)
}

impl ClientProfile {
    /// Validates the profile and names every referenced node by its
    /// identifier; a refused profile is left as it was.
    #[verifier::loop_isolation(false)]
    pub fn validate_and_normalize(&mut self) -> (normalized: Result<(), ProfileError>)
        ensures
            match profile_refusal(*old(self)) {
                Some(k) => normalized matches Err(e) && e.spec_kind() == k && *final(self) == *old(
                    self,
                ),
                None => normalized is Ok && normalized_profile(*old(self), *final(self)),
            },
    {
        let (default, compiled) = self.check()?;
        let ghost references = references_of(self.nodes@);
        let ghost before = self.routing.rules@;
        self.profile.default_node = default;
        let n = self.routing.rules.len();
        let mut i: usize = 0;
        while i < n
            invariant
                i <= n,
                n == self.routing.rules@.len(),
                n == before.len(),
                compiled@.len() == n,
                references == references_of(self.nodes@),
                self.nodes == old(self).nodes,
                self.traffic == old(self).traffic,
                self.version == old(self).version,
                self.profile.id == old(self).profile.id,
                self.profile.name == old(self).profile.name,
                self.routing.mode == old(self).routing.mode,
                resolve_reference(references, old(self).profile.default_node@) == Some(
                    self.profile.default_node@,
                ),
                forall|k: int| 0 <= k < n ==> rule_compiled(before[k], references, #[trigger] compiled@[k]),
                forall|k: int|
                    i <= k < n ==> #[trigger] self.routing.rules@[k] == before[k],
                forall|k: int|
                    0 <= k < i ==> (#[trigger] self.routing.rules@[k]).matcher == before[k].matcher
                        && Some(action_view(self.routing.rules@[k].action)) == action_resolved(
                        before[k].action,
                        references,
                    ),
            decreases n - i,
        {
            proof {
                assert(rule_compiled(before[i as int], references, compiled@[i as int]));
            }
            match compiled[i].action() {
                RoutingAction::Node(id) => {
                    let matcher = self.routing.rules[i].matcher.duplicate();
                    self.routing.rules.set(i, RuleConfig { matcher, action: ActionConfig::Node { target: id.clone() } });
                },
                _ => {
                    proof {
                        assert(!(before[i as int].action is Node));
                    }
                },
            }
            i = i + 1;
        }
        Ok(())
    }

    /// The shared routing policy the profile's rules compile to, in order,
    /// with node references resolved.
    pub fn routing_policy(&self) -> (policy: Result<RoutingPolicy, ProfileError>)
        ensures
            match profile_refusal(*self) {
                Some(k) => policy matches Err(e) && e.spec_kind() == k,
                None => policy matches Ok(p) && p.spec_rules().len() == self.routing.rules@.len()
                    && forall|i: int|
                    0 <= i < p.spec_rules().len() ==> rule_compiled(
                        self.routing.rules@[i],
                        references_of(self.nodes@),
                        #[trigger] p.spec_rules()[i],
                    ),
            },
    {
        let (_, compiled) = self.check()?;
        proof {
            assert forall|i: int| 0 <= i < compiled@.len() - 1 implies !(#[trigger] compiled@[i].spec_matcher() is Match) by {
                assert(rule_compiled(self.routing.rules@[i], references_of(self.nodes@), compiled@[i]));
            }
        }
        match RoutingPolicy::new(compiled) {
            Ok(p) => Ok(p),
            Err(e) => Err(invalid(e.message())),
        }
    }
}

/// Whether the table maps `id` to itself.
pub open spec fn holds_self_entry(references: Seq<(Seq<char>, Seq<char>)>, id: Seq<char>) -> bool {
    exists|j: int| 0 <= j < references.len() && #[trigger] references[j] == (id, id)
}

/// Every identifier a table resolves to is itself a name of the table,
/// referencing itself.
pub open spec fn self_referencing(references: Seq<(Seq<char>, Seq<char>)>) -> bool {
    forall|i: int| 0 <= i < references.len() ==> #[trigger] holds_self_entry(references, references[i].1)
}

proof fn lemma_identifiers_reference_themselves(nodes: Seq<NodeConfig>)
    ensures
        self_referencing(references_of(nodes)),
    decreases nodes.len(),
{
    if nodes.len() > 0 {
        let prefix = references_of(nodes.drop_last());
        let last = node_references(nodes.last());
        let all = references_of(nodes);
        let p = prefix.len() as int;
        lemma_identifiers_reference_themselves(nodes.drop_last());
        assert(all == prefix + last);
        assert forall|i: int| 0 <= i < all.len() implies #[trigger] holds_self_entry(all, all[i].1) by {
            if i < p {
                assert(prefix[i] == all[i]);
                assert(holds_self_entry(prefix, prefix[i].1));
                let j = choose|j: int| 0 <= j < prefix.len() && #[trigger] prefix[j] == (prefix[i].1, prefix[i].1);
                assert(all[j] == prefix[j]);
                assert(all[j] == (all[i].1, all[i].1));
            } else {
                assert(all[i] == last[i - p]);
                assert(last[i - p].1 == nodes.last().id@);
                assert(all[p] == last[0]);
                assert(all[p] == (all[i].1, all[i].1));
            }
        }
    }
}

proof fn lemma_resolved_identifier_is_fixed(references: Seq<(Seq<char>, Seq<char>)>, name: Seq<char>)
    requires
        names_distinct(references),
        self_referencing(references),
        resolve_reference(references, name) is Some,
    ensures
        resolve_reference(references, resolve_reference(references, name)->Some_0) == resolve_reference(
            references,
            name,
        ),
{
    let c = choose|c: int| 0 <= c < references.len() && #[trigger] references[c].0 == name;
    let id = references[c].1;
    assert(resolve_reference(references, name) == Some(id));
    assert(holds_self_entry(references, references[c].1));
    let j = choose|j: int| 0 <= j < references.len() && #[trigger] references[j] == (
        references[c].1,
        references[c].1,
    );
    assert(references[j].0 == id);
    let d = choose|d: int| 0 <= d < references.len() && #[trigger] references[d].0 == id;
    if d != j {
        if d < j {
            assert(references[d].0 != references[j].0);
        } else {
            assert(references[j].0 != references[d].0);
        }
    }
    assert(resolve_reference(references, id) == Some(references[d].1));
}

/// Normalizing is idempotent: a normalized profile is valid, and normalizing
/// it again resolves every reference to itself, so nothing changes.
pub proof fn lemma_normalization_is_idempotent(old: ClientProfile, new: ClientProfile)
    requires
        profile_refusal(old) is None,
        normalized_profile(old, new),
    ensures
        profile_refusal(new) is None,
        normalized_profile(new, new),
{
    let refs = references_of(old.nodes@);
    assert(references_of(new.nodes@) == refs);
    lemma_identifiers_reference_themselves(old.nodes@);
    lemma_resolved_identifier_is_fixed(refs, old.profile.default_node@);
    assert forall|i: int| 0 <= i < new.routing.rules@.len() implies action_resolved(
        (#[trigger] new.routing.rules@[i]).action,
        refs,
    ) == Some(action_view(new.routing.rules@[i].action)) by {
        let before = old.routing.rules@[i].action;
        let after = new.routing.rules@[i].action;
        assert(Some(action_view(after)) == action_resolved(before, refs));
        match before {
            ActionConfig::Node { target } => {
                lemma_resolved_identifier_is_fixed(refs, target@);
            },
            _ => {},
        }
    }
    assert(rules_ok(new.routing.rules@, refs)) by {
        assert forall|i: int| 0 <= i < new.routing.rules@.len() implies matcher_ok(
            #[trigger] new.routing.rules@[i].matcher,
        ) && action_resolved(new.routing.rules@[i].action, refs) is Some by {
            assert(new.routing.rules@[i].matcher == old.routing.rules@[i].matcher);
        }
        assert forall|i: int| 0 <= i < new.routing.rules@.len() - 1 implies !(
        #[trigger] new.routing.rules@[i].matcher is Match) by {
            assert(new.routing.rules@[i].matcher == old.routing.rules@[i].matcher);
        }
    }
}

} // verus!
