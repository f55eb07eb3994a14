//! Carrier-independent protocol identifiers, error codes and negotiation.
use vstd::prelude::*;
use crate::bytes::{all_zero, be16, be64, is_all_zero16, lemma_be16_roundtrip, lemma_be64_roundtrip};

verus! {

/// A logical flow identifier, unique within a session and never reused.
#[derive(Clone, Copy, Debug, PartialEq, Eq, Hash, PartialOrd, Ord, Structural)]
pub struct FlowId(pub u64);

/// Opaque identifier for one logical session.
#[derive(Clone, Copy, Debug, PartialEq, Eq, Hash, PartialOrd, Ord)]
pub struct SessionId(pub [u8; 16]);

/// Monotonically increasing carrier-transition generation for a session.
#[derive(Clone, Copy, Debug, PartialEq, Eq, PartialOrd, Ord, Structural)]
pub struct Epoch(pub u64);

/// Monotonically increasing reliable-segment sequence within one flow.
#[derive(Clone, Copy, Debug, PartialEq, Eq, PartialOrd, Ord, Structural)]
pub struct Sequence(pub u64);

/// Stable, payload-free error codes emitted by control frames.
#[derive(Clone, Copy, Debug, PartialEq, Eq, Structural)]
pub enum ProtocolErrorCode {
    NoSharedVersion,
    IncompatibleCapabilities,
    AuthenticationFailed,
    ReplayDetected,
    ProtocolViolation,
    ResourceLimit,
    FlowNotFound,
    FlowState,
    ResumeUnsupported,
    Internal,
    Unknown(u16),
}

/// The wire value of an error code.
pub open spec fn spec_error_code(code: ProtocolErrorCode) -> u16 {
    match code {
        ProtocolErrorCode::NoSharedVersion => 0x0001,
        ProtocolErrorCode::IncompatibleCapabilities => 0x0002,
        ProtocolErrorCode::AuthenticationFailed => 0x0003,
        ProtocolErrorCode::ReplayDetected => 0x0004,
        ProtocolErrorCode::ProtocolViolation => 0x0005,
        ProtocolErrorCode::ResourceLimit => 0x0006,
        ProtocolErrorCode::FlowNotFound => 0x0007,
        ProtocolErrorCode::FlowState => 0x0008,
        ProtocolErrorCode::ResumeUnsupported => 0x0009,
        ProtocolErrorCode::Internal => 0x00ff,
        ProtocolErrorCode::Unknown(value) => value,
    }
}

/// The error code that a wire value denotes.
pub open spec fn spec_error_from_code(value: u16) -> ProtocolErrorCode {
    if value == 0x0001 {
        ProtocolErrorCode::NoSharedVersion
    } else if value == 0x0002 {
        ProtocolErrorCode::IncompatibleCapabilities
    } else if value == 0x0003 {
        ProtocolErrorCode::AuthenticationFailed
    } else if value == 0x0004 {
        ProtocolErrorCode::ReplayDetected
    } else if value == 0x0005 {
        ProtocolErrorCode::ProtocolViolation
    } else if value == 0x0006 {
        ProtocolErrorCode::ResourceLimit
    } else if value == 0x0007 {
        ProtocolErrorCode::FlowNotFound
    } else if value == 0x0008 {
        ProtocolErrorCode::FlowState
    } else if value == 0x0009 {
        ProtocolErrorCode::ResumeUnsupported
    } else if value == 0x00ff {
        ProtocolErrorCode::Internal
    } else {
        ProtocolErrorCode::Unknown(value)
    }
}

/// A code is canonical when `Unknown` carries only a value no named code uses.
pub open spec fn is_canonical_error(code: ProtocolErrorCode) -> bool {
    spec_error_from_code(spec_error_code(code)) == code
}

impl ProtocolErrorCode {
    /// The wire value of this error code.
    pub fn as_u16(self) -> (value: u16)
        ensures
            value == spec_error_code(self),
    {
        match self {
            ProtocolErrorCode::NoSharedVersion => 0x0001,
            ProtocolErrorCode::IncompatibleCapabilities => 0x0002,
            ProtocolErrorCode::AuthenticationFailed => 0x0003,
            ProtocolErrorCode::ReplayDetected => 0x0004,
            ProtocolErrorCode::ProtocolViolation => 0x0005,
            ProtocolErrorCode::ResourceLimit => 0x0006,
            ProtocolErrorCode::FlowNotFound => 0x0007,
            ProtocolErrorCode::FlowState => 0x0008,
            ProtocolErrorCode::ResumeUnsupported => 0x0009,
            ProtocolErrorCode::Internal => 0x00ff,
            ProtocolErrorCode::Unknown(value) => value,
        }
    }

    /// The error code that a wire value denotes.
    pub fn from_u16(value: u16) -> (code: Self)
        ensures
            code == spec_error_from_code(value),
    {
        match value {
            0x0001 => ProtocolErrorCode::NoSharedVersion,
            0x0002 => ProtocolErrorCode::IncompatibleCapabilities,
            0x0003 => ProtocolErrorCode::AuthenticationFailed,
            0x0004 => ProtocolErrorCode::ReplayDetected,
            0x0005 => ProtocolErrorCode::ProtocolViolation,
            0x0006 => ProtocolErrorCode::ResourceLimit,
            0x0007 => ProtocolErrorCode::FlowNotFound,
            0x0008 => ProtocolErrorCode::FlowState,
            0x0009 => ProtocolErrorCode::ResumeUnsupported,
            0x00ff => ProtocolErrorCode::Internal,
            unknown => ProtocolErrorCode::Unknown(unknown),
        }
    }
}

/// Decoding any wire value and encoding it again gives back the same value,
/// and every decoded code is canonical.
pub proof fn lemma_error_code_wire_roundtrip(value: u16)
    ensures
        spec_error_code(spec_error_from_code(value)) == value,
        is_canonical_error(spec_error_from_code(value)),
{
}

/// An inclusive range of supported protocol versions.
#[derive(Clone, Copy, Debug, PartialEq, Eq, Structural)]
pub struct VersionRange {
    pub minimum: u16,
    pub maximum: u16,
}

#[derive(Clone, Copy, Debug, PartialEq, Eq, Structural)]
pub enum VersionRangeError {
    InvalidRange,
}

impl VersionRange {
    pub open spec fn spec_is_valid(self) -> bool {
        self.minimum <= self.maximum
    }

    /// The newest version both valid ranges contain, if there is one.
    pub open spec fn spec_negotiate(self, peer: Self) -> Option<u16> {
        if !self.spec_is_valid() || !peer.spec_is_valid() {
            None
        } else {
            let minimum = if self.minimum > peer.minimum {
                self.minimum
            } else {
                peer.minimum
            };
            let maximum = if self.maximum < peer.maximum {
                self.maximum
            } else {
                peer.maximum
            };
            if minimum <= maximum {
                Some(maximum)
            } else {
                None
            }
        }
    }

    pub open spec fn spec_contains(self, version: u16) -> bool {
        self.minimum <= version <= self.maximum
    }

    /// Builds a range; it is refused exactly when `minimum > maximum`.
    pub fn new(minimum: u16, maximum: u16) -> (range: Result<Self, VersionRangeError>)
        ensures
            range is Ok <==> minimum <= maximum,
            range matches Ok(r) ==> r.minimum == minimum && r.maximum == maximum,
            range matches Err(e) ==> e == VersionRangeError::InvalidRange,
    {
        if minimum > maximum {
            return Err(VersionRangeError::InvalidRange);
        }
        Ok(VersionRange { minimum, maximum })
    }

    pub fn is_valid(self) -> (valid: bool)
        ensures
            valid == self.spec_is_valid(),
    {
        self.minimum <= self.maximum
    }

    /// Selects the newest version supported by both peers.
    pub fn negotiate(self, peer: Self) -> (version: Option<u16>)
        ensures
            version == self.spec_negotiate(peer),
    {
        if !self.is_valid() || !peer.is_valid() {
            return None;
        }
        let minimum = if self.minimum > peer.minimum {
            self.minimum
        } else {
            peer.minimum
        };
        let maximum = if self.maximum < peer.maximum {
            self.maximum
        } else {
            peer.maximum
        };
        if minimum <= maximum {
            Some(maximum)
        } else {
            None
        }
    }
}

/// Version negotiation does not depend on which peer offers first; a chosen
/// version lies in both ranges and no shared version is newer; when it fails,
/// no version lies in both ranges.
pub proof fn lemma_version_negotiation(a: VersionRange, b: VersionRange)
    ensures
        a.spec_negotiate(b) == b.spec_negotiate(a),
        a.spec_negotiate(b) matches Some(v) ==> a.spec_contains(v) && b.spec_contains(v) && (
        forall|w: u16| a.spec_contains(w) && b.spec_contains(w) ==> w <= v),
        a.spec_negotiate(b) is None ==> forall|w: u16| !(a.spec_contains(w) && b.spec_contains(w)),
{
}

/// Bitset of carrier-independent features understood by a peer.
#[derive(Clone, Copy, Debug, Default, PartialEq, Eq, Structural)]
pub struct Capabilities(pub u64);

pub open spec fn spec_caps_contains(a: u64, b: u64) -> bool {
    a & b == b
}

pub open spec fn spec_caps_intersects(a: u64, b: u64) -> bool {
    a & b != 0
}

/// The reliable-stream capability bit.
pub open spec fn reliable_stream_bit() -> u64 {
    1
}

/// Every capability bit this implementation knows.
pub open spec fn known_bits() -> u64 {
    3
}

impl Capabilities {
    /// The reliable-stream capability.
    pub fn reliable_stream() -> (c: Self)
        ensures
            c.0 == reliable_stream_bit(),
    {
        Capabilities(1)
    }

    /// The unreliable-datagram capability.
    pub fn unreliable_datagram() -> (c: Self)
        ensures
            c.0 == 2,
    {
        Capabilities(2)
    }

    /// Every capability this implementation knows.
    pub fn known() -> (c: Self)
        ensures
            c.0 == known_bits(),
    {
        Capabilities(3)
    }

    /// Whether every bit of `other` is set in `self`.
    pub fn contains(self, other: Self) -> (contained: bool)
        ensures
            contained == spec_caps_contains(self.0, other.0),
    {
        self.0 & other.0 == other.0
    }

    /// Whether `self` and `other` share a bit.
    pub fn intersects(self, other: Self) -> (shared: bool)
        ensures
            shared == spec_caps_intersects(self.0, other.0),
    {
        self.0 & other.0 != 0
    }

    /// The bits set in both.
    pub fn intersection(self, other: Self) -> (both: Self)
        ensures
            both.0 == self.0 & other.0,
    {
        Capabilities(self.0 & other.0)
    }

    /// The bits this implementation does not know.
    pub fn unknown(self) -> (unknown: Self)
        ensures
            unknown.0 == self.0 & !known_bits(),
    {
        Capabilities(self.0 & !3u64)
    }
}

/// A capability offer separates required behavior from optional behavior.
///
/// Unknown required bits reject negotiation. Unknown optional bits are not
/// enabled, allowing a newer peer to interoperate with an older one.
#[derive(Clone, Copy, Debug, PartialEq, Eq, Structural)]
pub struct CapabilityAdvertisement {
    pub required: Capabilities,
    pub optional: Capabilities,
}

#[derive(Clone, Copy, Debug, PartialEq, Eq, Structural)]
pub enum CapabilityAdvertisementError {
    OverlappingBits,
}

impl CapabilityAdvertisement {
    pub open spec fn spec_offered(self) -> u64 {
        self.required.0 | self.optional.0
    }

    /// Builds an advertisement; refused exactly when a bit is both required and optional.
    pub fn new(required: Capabilities, optional: Capabilities) -> (advertisement: Result<
        Self,
        CapabilityAdvertisementError,
    >)
        ensures
            advertisement is Ok <==> !spec_caps_intersects(required.0, optional.0),
            advertisement matches Ok(a) ==> a.required == required && a.optional == optional,
            advertisement matches Err(e) ==> e == CapabilityAdvertisementError::OverlappingBits,
    {
        if required.intersects(optional) {
            return Err(CapabilityAdvertisementError::OverlappingBits);
        }
        Ok(CapabilityAdvertisement { required, optional })
    }

    /// Every offered bit, required or optional.
    pub fn offered(self) -> (offered: Capabilities)
        ensures
            offered.0 == self.spec_offered(),
    {
        Capabilities(self.required.0 | self.optional.0)
    }
}

/// A non-zero nonce that binds a negotiation response to its offer.
#[derive(Clone, Copy, Debug, PartialEq, Eq)]
pub struct HandshakeNonce([u8; 16]);

#[derive(Clone, Copy, Debug, PartialEq, Eq, Structural)]
pub enum HandshakeNonceError {
    AllZero,
}

impl View for HandshakeNonce {
    type V = Seq<u8>;

    closed spec fn view(&self) -> Seq<u8> {
        self.0@
    }
}

impl HandshakeNonce {
    #[verifier::type_invariant]
    closed spec fn nonzero(self) -> bool {
        !all_zero(self.0@)
    }

    /// Accepts sixteen bytes unless every one of them is zero.
    pub fn new(bytes: [u8; 16]) -> (nonce: Result<Self, HandshakeNonceError>)
        ensures
            nonce is Ok <==> !all_zero(bytes@),
            nonce matches Ok(n) ==> n@ == bytes@,
            nonce matches Err(e) ==> e == HandshakeNonceError::AllZero,
    {
        if is_all_zero16(&bytes) {
            return Err(HandshakeNonceError::AllZero);
        }
        Ok(HandshakeNonce(bytes))
    }

    /// The sixteen bytes; they are never all zero.
    pub fn bytes(self) -> (bytes: [u8; 16])
        ensures
            bytes@ == self@,
            bytes@.len() == 16,
            !all_zero(bytes@),
    {
        proof {
            use_type_invariant(&self);
        }
        self.0
    }
}

/// A fresh opaque identifier for one carrier-attachment attempt.
///
/// It is echoed by `AttachAccepted` so a lost acknowledgement can be retried
/// idempotently.
#[derive(Clone, Copy, Debug, PartialEq, Eq)]
pub struct AttachmentId([u8; 16]);

#[derive(Clone, Copy, Debug, PartialEq, Eq, Structural)]
pub enum AttachmentIdError {
    AllZero,
}

impl View for AttachmentId {
    type V = Seq<u8>;

    closed spec fn view(&self) -> Seq<u8> {
        self.0@
    }
}

impl AttachmentId {
    #[verifier::type_invariant]
    closed spec fn nonzero(self) -> bool {
        !all_zero(self.0@)
    }

    /// Accepts sixteen bytes unless every one of them is zero.
    pub fn new(bytes: [u8; 16]) -> (id: Result<Self, AttachmentIdError>)
        ensures
            id is Ok <==> !all_zero(bytes@),
            id matches Ok(n) ==> n@ == bytes@,
            id matches Err(e) ==> e == AttachmentIdError::AllZero,
    {
        if is_all_zero16(&bytes) {
            return Err(AttachmentIdError::AllZero);
        }
        Ok(AttachmentId(bytes))
    }

    /// The sixteen bytes; they are never all zero.
    pub fn bytes(self) -> (bytes: [u8; 16])
        ensures
            bytes@ == self@,
            bytes@.len() == 16,
            !all_zero(bytes@),
    {
        proof {
            use_type_invariant(&self);
        }
        self.0
    }
}

/// A client's authenticated offer before a logical session is attached.
#[derive(Clone, Copy, Debug, PartialEq, Eq)]
pub struct NegotiationOffer {
    pub versions: VersionRange,
    pub capabilities: CapabilityAdvertisement,
    pub client_nonce: HandshakeNonce,
}

#[derive(Clone, Copy, Debug, PartialEq, Eq, Structural)]
pub enum NegotiationError {
    InvalidVersionRange,
    InvalidCapabilityAdvertisement,
    NoSharedVersion,
    UnsupportedRequiredCapability,
    MissingReliableStream,
    InvalidSelection,
}

/// The outcome of checking an offer's fields, in the order they are checked.
pub open spec fn spec_offer_check(versions: VersionRange, capabilities: CapabilityAdvertisement)
    -> Option<NegotiationError> {
    if !versions.spec_is_valid() {
        Some(NegotiationError::InvalidVersionRange)
    } else if spec_caps_intersects(capabilities.required.0, capabilities.optional.0) {
        Some(NegotiationError::InvalidCapabilityAdvertisement)
    } else if !spec_caps_contains(capabilities.required.0, reliable_stream_bit()) {
        Some(NegotiationError::MissingReliableStream)
    } else {
        None
    }
}

/// The accepted version, capabilities, and nonces. Its canonical bytes are
/// included in every carrier-attachment proof.
#[derive(Clone, Copy, Debug, PartialEq, Eq)]
pub struct NegotiatedParameters {
    pub version: u16,
    pub capabilities: Capabilities,
    pub client_nonce: HandshakeNonce,
    pub server_nonce: HandshakeNonce,
}

/// What a server selects for an offer, or why it refuses.
pub open spec fn spec_negotiation(
    offer: NegotiationOffer,
    server_versions: VersionRange,
    server_capabilities: Capabilities,
) -> Result<(u16, u64), NegotiationError> {
    match offer.versions.spec_negotiate(server_versions) {
        None => Err(NegotiationError::NoSharedVersion),
        Some(version) => if !spec_caps_contains(
            server_capabilities.0,
            offer.capabilities.required.0,
        ) {
            Err(NegotiationError::UnsupportedRequiredCapability)
        } else {
            let enabled = offer.capabilities.spec_offered() & server_capabilities.0;
            if !spec_caps_contains(enabled, reliable_stream_bit()) {
                Err(NegotiationError::MissingReliableStream)
            } else {
                Ok((version, enabled))
            }
        },
    }
}

impl NegotiationOffer {
    /// Builds an offer; refused when the versions are invalid, a bit is both
    /// required and optional, or reliable streams are not required.
    pub fn new(
        versions: VersionRange,
        capabilities: CapabilityAdvertisement,
        client_nonce: HandshakeNonce,
    ) -> (offer: Result<Self, NegotiationError>)
        ensures
            offer is Ok <==> spec_offer_check(versions, capabilities) is None,
            offer matches Ok(o) ==> o.versions == versions && o.capabilities == capabilities
                && o.client_nonce == client_nonce,
            offer matches Err(e) ==> spec_offer_check(versions, capabilities) == Some(e),
    {
        if !versions.is_valid() {
            return Err(NegotiationError::InvalidVersionRange);
        }
        if capabilities.required.intersects(capabilities.optional) {
            return Err(NegotiationError::InvalidCapabilityAdvertisement);
        }
        if !capabilities.required.contains(Capabilities::reliable_stream()) {
            return Err(NegotiationError::MissingReliableStream);
        }
        Ok(NegotiationOffer { versions, capabilities, client_nonce })
    }

    /// Selects the newest common version and every mutually supported offered
    /// capability. A peer always requires reliable-stream support.
    pub fn negotiate(
        self,
        server_versions: VersionRange,
        server_capabilities: Capabilities,
        server_nonce: HandshakeNonce,
    ) -> (parameters: Result<NegotiatedParameters, NegotiationError>)
        ensures
            match (parameters, spec_negotiation(self, server_versions, server_capabilities)) {
                (Ok(p), Ok((version, enabled))) => p.version == version && p.capabilities.0
                    == enabled && p.client_nonce == self.client_nonce && p.server_nonce
                    == server_nonce,
                (Err(e), Err(f)) => e == f,
                _ => false,
            },
    {
        let version = match self.versions.negotiate(server_versions) {
            Some(version) => version,
            None => return Err(NegotiationError::NoSharedVersion),
        };
        if !server_capabilities.contains(self.capabilities.required) {
            return Err(NegotiationError::UnsupportedRequiredCapability);
        }
        let enabled = self.capabilities.offered().intersection(server_capabilities);
        if !enabled.contains(Capabilities::reliable_stream()) {
            return Err(NegotiationError::MissingReliableStream);
        }
        Ok(
            NegotiatedParameters {
                version,
                capabilities: enabled,
                client_nonce: self.client_nonce,
                server_nonce,
            },
        )
    }
}

/// Whether a selection is one the offer permits.
pub open spec fn spec_selection_valid(p: NegotiatedParameters, offer: NegotiationOffer) -> bool {
    &&& offer.versions.spec_is_valid()
    &&& offer.versions.spec_contains(p.version)
    &&& spec_caps_contains(offer.capabilities.spec_offered(), p.capabilities.0)
    &&& spec_caps_contains(p.capabilities.0, offer.capabilities.required.0)
    &&& spec_caps_contains(p.capabilities.0, reliable_stream_bit())
    &&& p.client_nonce@ == offer.client_nonce@
}

/// Canonical fixed-width representation of negotiated parameters.
pub open spec fn spec_canonical_parameters(
    version: u16,
    capabilities: u64,
    client_nonce: Seq<u8>,
    server_nonce: Seq<u8>,
) -> Seq<u8> {
    be16(version) + be64(capabilities) + client_nonce + server_nonce
}

pub const NEGOTIATED_PARAMETERS_BYTES: usize = 42;

/// Compares two sixteen-byte values.
pub fn bytes16_equal(a: &[u8; 16], b: &[u8; 16]) -> (equal: bool)
    ensures
        equal == (a@ == b@),
{
    let mut i: usize = 0;
    while i < 16
        invariant
            i <= 16,
            a@.len() == 16,
            b@.len() == 16,
            forall|j: int| 0 <= j < i ==> a@[j] == b@[j],
        decreases 16 - i,
    {
        if a[i] != b[i] {
            return false;
        }
        i = i + 1;
    }
    assert(a@ =~= b@);
    true
}

impl NegotiatedParameters {
    pub open spec fn spec_canonical(self) -> Seq<u8> {
        spec_canonical_parameters(
            self.version,
            self.capabilities.0,
            self.client_nonce@,
            self.server_nonce@,
        )
    }

    /// Accepts a server's selection only when the offer permits it.
    pub fn validate_for(self, offer: NegotiationOffer) -> (valid: Result<(), NegotiationError>)
        ensures
            valid is Ok <==> spec_selection_valid(self, offer),
            valid matches Err(e) ==> e == NegotiationError::InvalidSelection,
    {
        if !offer.versions.is_valid() || self.version < offer.versions.minimum || self.version
            > offer.versions.maximum || !offer.capabilities.offered().contains(self.capabilities)
            || !self.capabilities.contains(offer.capabilities.required)
            || !self.capabilities.contains(Capabilities::reliable_stream()) || !bytes16_equal(
            &self.client_nonce.bytes(),
            &offer.client_nonce.bytes(),
        ) {
            return Err(NegotiationError::InvalidSelection);
        }
        Ok(())
    }

    /// Canonical, fixed-width representation for framing and transcript
    /// binding. All integers use network byte order.
    pub fn canonical_bytes(self) -> (bytes: [u8; 42])
        ensures
            bytes@ == self.spec_canonical(),
    {
        let mut bytes = [0u8; 42];
        let version = self.version;
        let capabilities = self.capabilities.0;
        let client_nonce = self.client_nonce.bytes();
        let server_nonce = self.server_nonce.bytes();
        bytes[0] = (version >> 8u16) as u8;
        bytes[1] = version as u8;
        bytes[2] = (capabilities >> 56u64) as u8;
        bytes[3] = (capabilities >> 48u64) as u8;
        bytes[4] = (capabilities >> 40u64) as u8;
        bytes[5] = (capabilities >> 32u64) as u8;
        bytes[6] = (capabilities >> 24u64) as u8;
        bytes[7] = (capabilities >> 16u64) as u8;
        bytes[8] = (capabilities >> 8u64) as u8;
        bytes[9] = capabilities as u8;
        let mut index: usize = 0;
        while index < 16
            invariant
                index <= 16,
                bytes@.len() == 42,
                client_nonce@.len() == 16,
                server_nonce@.len() == 16,
                forall|j: int| 0 <= j < 10 ==> bytes@[j] == (be16(version) + be64(capabilities))[j],
                forall|j: int| 0 <= j < index ==> bytes@[10 + j] == client_nonce@[j],
                forall|j: int| 0 <= j < index ==> bytes@[26 + j] == server_nonce@[j],
            decreases 16 - index,
        {
            bytes[10 + index] = client_nonce[index];
            bytes[26 + index] = server_nonce[index];
            index = index + 1;
        }
        assert(bytes@ =~= self.spec_canonical());
        bytes
    }
}

/// Every parameter set a successful negotiation produces is one its offer permits.
pub proof fn lemma_negotiation_is_valid_selection(
    offer: NegotiationOffer,
    server_versions: VersionRange,
    server_capabilities: Capabilities,
    parameters: NegotiatedParameters,
)
    requires
        spec_negotiation(offer, server_versions, server_capabilities) == Ok::<(u16, u64), NegotiationError>((parameters.version, parameters.capabilities.0)),
        parameters.client_nonce@ == offer.client_nonce@,
    ensures
        spec_selection_valid(parameters, offer),
{
    let a = offer.capabilities.required.0;
    let b = offer.capabilities.optional.0;
    let s = server_capabilities.0;
    let e = parameters.capabilities.0;
    assert(s & a == a);
    assert(e == (a | b) & s);
    assert(s & a == a ==> ((a | b) & s) & a == a) by (bit_vector);
    assert(((a | b) & ((a | b) & s)) == (a | b) & s) by (bit_vector);
    assert(spec_caps_contains(offer.capabilities.spec_offered(), e));
    assert(spec_caps_contains(e, a));
}

/// Negotiated parameters are determined by their canonical bytes: two
/// selections with the same 42 bytes are the same selection.
pub proof fn lemma_canonical_parameters_injective(p: NegotiatedParameters, q: NegotiatedParameters)
    requires
        p.spec_canonical() == q.spec_canonical(),
    ensures
        p == q,
{
    broadcast use vstd::array::group_array_axioms;

    let b = p.spec_canonical();
    assert(p.client_nonce@.len() == 16 && p.server_nonce@.len() == 16);
    assert(q.client_nonce@.len() == 16 && q.server_nonce@.len() == 16);
    assert(b.subrange(0, 2) =~= be16(p.version));
    assert(b.subrange(0, 2) =~= be16(q.version));
    lemma_be16_roundtrip(p.version);
    lemma_be16_roundtrip(q.version);
    assert(b.subrange(2, 10) =~= be64(p.capabilities.0));
    assert(b.subrange(2, 10) =~= be64(q.capabilities.0));
    lemma_be64_roundtrip(p.capabilities.0);
    lemma_be64_roundtrip(q.capabilities.0);
    assert(b.subrange(10, 26) =~= p.client_nonce@);
    assert(b.subrange(10, 26) =~= q.client_nonce@);
    assert(b.subrange(26, 42) =~= p.server_nonce@);
    assert(b.subrange(26, 42) =~= q.server_nonce@);
    assert(p.client_nonce.0 =~= q.client_nonce.0);
    assert(p.server_nonce.0 =~= q.server_nonce.0);
}

} // verus!
