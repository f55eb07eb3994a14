//! Bounded canonical frame encoding.
//!
//! Frames are only valid inside an authenticated, encrypted carrier. The
//! header intentionally has no magic value so it cannot act as a
//! pre-authentication marker.
use vstd::prelude::*;
use vstd::slice::slice_subrange;
use crate::bytes::{
    all_zero, be16, be64, from_be16, from_be64, lemma_be16_roundtrip, lemma_be64_roundtrip,
    lemma_from_be16_roundtrip, lemma_from_be64_roundtrip, push_all, push_u16, push_u64,
    read_array16, read_array32, read_u16, read_u64, copy_range,
};
use crate::protocol::{
    is_canonical_error, spec_error_code, spec_error_from_code, AttachmentId, Capabilities,
    CapabilityAdvertisement, Epoch, FlowId, HandshakeNonce, NegotiatedParameters,
    NegotiationOffer, ProtocolErrorCode, Sequence, SessionId, VersionRange,
};

verus! {

pub const FRAME_HEADER_BYTES: usize = 4;

pub const MAX_FRAME_PAYLOAD: usize = 65535;

pub const NEGOTIATION_OFFER: u8 = 0x01;

pub const NEGOTIATION_ACCEPT: u8 = 0x02;

pub const ATTACH: u8 = 0x03;

pub const ATTACH_ACCEPTED: u8 = 0x04;

pub const STREAM_OPEN: u8 = 0x10;

pub const STREAM_DATA: u8 = 0x11;

pub const STREAM_ACK: u8 = 0x12;

pub const STREAM_FINISH: u8 = 0x13;

pub const STREAM_RESET: u8 = 0x14;

pub const CONNECTION_CLOSE: u8 = 0x20;

pub const OPTIONAL_FRAME_BIT: u8 = 0x80;

#[derive(Clone, Debug, PartialEq, Eq)]
pub enum Frame {
    NegotiationOffer(NegotiationOffer),
    NegotiationAccept(NegotiatedParameters),
    Attach {
        session_id: SessionId,
        epoch: Epoch,
        attachment_id: AttachmentId,
        parameters: NegotiatedParameters,
        proof: [u8; 32],
    },
    AttachAccepted { session_id: SessionId, epoch: Epoch, attachment_id: AttachmentId },
    StreamOpen { flow_id: FlowId },
    StreamData { flow_id: FlowId, epoch: Epoch, sequence: Sequence, bytes: Vec<u8> },
    StreamAcknowledgement { flow_id: FlowId, epoch: Epoch, through: Sequence },
    StreamFinish { flow_id: FlowId, epoch: Epoch, final_next_sequence: Sequence },
    StreamReset { flow_id: FlowId, error: ProtocolErrorCode },
    ConnectionClose { error: ProtocolErrorCode },
    /// An unrecognized optional frame. Recipients can ignore it after bounded
    /// parsing, but must not reinterpret it as a known frame.
    UnknownOptional { frame_type: u8, payload: Vec<u8> },
}

#[derive(Clone, Copy, Debug, PartialEq, Eq, Structural)]
pub enum FrameEncodeError {
    PayloadTooLarge { maximum: usize, actual: usize },
    EmptyStreamData,
    InvalidOptionalFrameType(u8),
}

#[derive(Clone, Copy, Debug, PartialEq, Eq, Structural)]
pub enum FrameDecodeError {
    TruncatedHeader,
    LengthMismatch { advertised: usize, actual: usize },
    PayloadTooLarge { maximum: usize, actual: usize },
    UnknownMandatoryFrame(u8),
    EmptyStreamData,
    InvalidPayload,
}

/// Mathematical content of negotiated parameters.
pub struct ParametersView {
    pub version: u16,
    pub capabilities: u64,
    pub client_nonce: Seq<u8>,
    pub server_nonce: Seq<u8>,
}

/// Mathematical content of a frame: integers, byte sequences and error codes.
pub enum FrameView {
    NegotiationOffer {
        minimum: u16,
        maximum: u16,
        required: u64,
        optional: u64,
        client_nonce: Seq<u8>,
    },
    NegotiationAccept(ParametersView),
    Attach {
        session_id: Seq<u8>,
        epoch: u64,
        attachment_id: Seq<u8>,
        parameters: ParametersView,
        proof: Seq<u8>,
    },
    AttachAccepted { session_id: Seq<u8>, epoch: u64, attachment_id: Seq<u8> },
    StreamOpen { flow_id: u64 },
    StreamData { flow_id: u64, epoch: u64, sequence: u64, bytes: Seq<u8> },
    StreamAcknowledgement { flow_id: u64, epoch: u64, through: u64 },
    StreamFinish { flow_id: u64, epoch: u64, final_next_sequence: u64 },
    StreamReset { flow_id: u64, error: ProtocolErrorCode },
    ConnectionClose { error: ProtocolErrorCode },
    UnknownOptional { frame_type: u8, payload: Seq<u8> },
}

pub open spec fn parameters_view(p: NegotiatedParameters) -> ParametersView {
    ParametersView {
        version: p.version,
        capabilities: p.capabilities.0,
        client_nonce: p.client_nonce@,
        server_nonce: p.server_nonce@,
    }
}

impl View for Frame {
    type V = FrameView;

    open spec fn view(&self) -> FrameView {
        match *self {
            Frame::NegotiationOffer(offer) => FrameView::NegotiationOffer {
                minimum: offer.versions.minimum,
                maximum: offer.versions.maximum,
                required: offer.capabilities.required.0,
                optional: offer.capabilities.optional.0,
                client_nonce: offer.client_nonce@,
            },
            Frame::NegotiationAccept(p) => FrameView::NegotiationAccept(parameters_view(p)),
            Frame::Attach { session_id, epoch, attachment_id, parameters, proof } =>
                FrameView::Attach {
                session_id: session_id.0@,
                epoch: epoch.0,
                attachment_id: attachment_id@,
                parameters: parameters_view(parameters),
                proof: proof@,
            },
            Frame::AttachAccepted { session_id, epoch, attachment_id } =>
                FrameView::AttachAccepted {
                session_id: session_id.0@,
                epoch: epoch.0,
                attachment_id: attachment_id@,
            },
            Frame::StreamOpen { flow_id } => FrameView::StreamOpen { flow_id: flow_id.0 },
            Frame::StreamData { flow_id, epoch, sequence, bytes } => FrameView::StreamData {
                flow_id: flow_id.0,
                epoch: epoch.0,
                sequence: sequence.0,
                bytes: bytes@,
            },
            Frame::StreamAcknowledgement { flow_id, epoch, through } =>
                FrameView::StreamAcknowledgement {
                flow_id: flow_id.0,
                epoch: epoch.0,
                through: through.0,
            },
            Frame::StreamFinish { flow_id, epoch, final_next_sequence } =>
                FrameView::StreamFinish {
                flow_id: flow_id.0,
                epoch: epoch.0,
                final_next_sequence: final_next_sequence.0,
            },
            Frame::StreamReset { flow_id, error } => FrameView::StreamReset {
                flow_id: flow_id.0,
                error,
            },
            Frame::ConnectionClose { error } => FrameView::ConnectionClose { error },
            Frame::UnknownOptional { frame_type, payload } => FrameView::UnknownOptional {
                frame_type,
                payload: payload@,
            },
        }
    }
}

pub open spec fn parameters_bytes(p: ParametersView) -> Seq<u8> {
    be16(p.version) + be64(p.capabilities) + p.client_nonce + p.server_nonce
}

/// The frame type octet of a frame.
pub open spec fn spec_frame_type(v: FrameView) -> u8 {
    match v {
        FrameView::NegotiationOffer { .. } => NEGOTIATION_OFFER,
        FrameView::NegotiationAccept(..) => NEGOTIATION_ACCEPT,
        FrameView::Attach { .. } => ATTACH,
        FrameView::AttachAccepted { .. } => ATTACH_ACCEPTED,
        FrameView::StreamOpen { .. } => STREAM_OPEN,
        FrameView::StreamData { .. } => STREAM_DATA,
        FrameView::StreamAcknowledgement { .. } => STREAM_ACK,
        FrameView::StreamFinish { .. } => STREAM_FINISH,
        FrameView::StreamReset { .. } => STREAM_RESET,
        FrameView::ConnectionClose { .. } => CONNECTION_CLOSE,
        FrameView::UnknownOptional { frame_type, .. } => frame_type,
    }
}

/// The payload octets of a frame: every field in order, integers big-endian.
pub open spec fn spec_payload(v: FrameView) -> Seq<u8> {
    match v {
        FrameView::NegotiationOffer { minimum, maximum, required, optional, client_nonce } => be16(
            minimum,
        ) + be16(maximum) + be64(required) + be64(optional) + client_nonce,
        FrameView::NegotiationAccept(p) => parameters_bytes(p),
        FrameView::Attach { session_id, epoch, attachment_id, parameters, proof } => session_id
            + be64(epoch) + attachment_id + parameters_bytes(parameters) + proof,
        FrameView::AttachAccepted { session_id, epoch, attachment_id } => session_id + be64(epoch)
            + attachment_id,
        FrameView::StreamOpen { flow_id } => be64(flow_id),
        FrameView::StreamData { flow_id, epoch, sequence, bytes } => be64(flow_id) + be64(epoch)
            + be64(sequence) + bytes,
        FrameView::StreamAcknowledgement { flow_id, epoch, through } => be64(flow_id) + be64(epoch)
            + be64(through),
        FrameView::StreamFinish { flow_id, epoch, final_next_sequence } => be64(flow_id) + be64(
            epoch,
        ) + be64(final_next_sequence),
        FrameView::StreamReset { flow_id, error } => be64(flow_id) + be16(spec_error_code(error)),
        FrameView::ConnectionClose { error } => be16(spec_error_code(error)),
        FrameView::UnknownOptional { payload, .. } => payload,
    }
}

pub open spec fn parameters_wf(p: ParametersView) -> bool {
    &&& p.client_nonce.len() == 16
    &&& !all_zero(p.client_nonce)
    &&& p.server_nonce.len() == 16
    &&& !all_zero(p.server_nonce)
}

/// A frame that a peer can send and its recipient decodes back unchanged.
pub open spec fn frame_wf(v: FrameView) -> bool {
    match v {
        FrameView::NegotiationOffer { minimum, maximum, required, optional, client_nonce } => {
            &&& minimum <= maximum
            &&& required & optional == 0
            &&& required & 1 == 1
            &&& client_nonce.len() == 16
            &&& !all_zero(client_nonce)
        },
        FrameView::NegotiationAccept(p) => parameters_wf(p),
        FrameView::Attach { session_id, attachment_id, parameters, proof, .. } => {
            &&& session_id.len() == 16
            &&& attachment_id.len() == 16
            &&& !all_zero(attachment_id)
            &&& parameters_wf(parameters)
            &&& proof.len() == 32
        },
        FrameView::AttachAccepted { session_id, attachment_id, .. } => {
            &&& session_id.len() == 16
            &&& attachment_id.len() == 16
            &&& !all_zero(attachment_id)
        },
        FrameView::StreamData { bytes, .. } => bytes.len() > 0,
        FrameView::StreamReset { error, .. } => is_canonical_error(error),
        FrameView::ConnectionClose { error } => is_canonical_error(error),
        FrameView::UnknownOptional { frame_type, .. } => frame_type & OPTIONAL_FRAME_BIT != 0,
        _ => true,
    }
}

pub open spec fn parse_parameters(p: Seq<u8>) -> ParametersView {
    ParametersView {
        version: from_be16(p.subrange(0, 2)),
        capabilities: from_be64(p.subrange(2, 10)),
        client_nonce: p.subrange(10, 26),
        server_nonce: p.subrange(26, 42),
    }
}

/// How a recipient interprets the payload of a frame of type `t`.
pub open spec fn spec_parse_payload(t: u8, p: Seq<u8>) -> Result<FrameView, FrameDecodeError> {
    if t == NEGOTIATION_OFFER {
        if p.len() != 36 {
            Err(FrameDecodeError::InvalidPayload)
        } else {
            let minimum = from_be16(p.subrange(0, 2));
            let maximum = from_be16(p.subrange(2, 4));
            let required = from_be64(p.subrange(4, 12));
            let optional = from_be64(p.subrange(12, 20));
            let client_nonce = p.subrange(20, 36);
            if minimum > maximum || all_zero(client_nonce) || required & optional != 0 || required
                & 1 != 1 {
                Err(FrameDecodeError::InvalidPayload)
            } else {
                Ok(FrameView::NegotiationOffer { minimum, maximum, required, optional, client_nonce })
            }
        }
    } else if t == NEGOTIATION_ACCEPT {
        if p.len() != 42 || !parameters_wf(parse_parameters(p)) {
            Err(FrameDecodeError::InvalidPayload)
        } else {
            Ok(FrameView::NegotiationAccept(parse_parameters(p)))
        }
    } else if t == ATTACH {
        if p.len() != 114 || all_zero(p.subrange(24, 40)) || !parameters_wf(
            parse_parameters(p.subrange(40, 82)),
        ) {
            Err(FrameDecodeError::InvalidPayload)
        } else {
            Ok(
                FrameView::Attach {
                    session_id: p.subrange(0, 16),
                    epoch: from_be64(p.subrange(16, 24)),
                    attachment_id: p.subrange(24, 40),
                    parameters: parse_parameters(p.subrange(40, 82)),
                    proof: p.subrange(82, 114),
                },
            )
        }
    } else if t == ATTACH_ACCEPTED {
        if p.len() != 40 || all_zero(p.subrange(24, 40)) {
            Err(FrameDecodeError::InvalidPayload)
        } else {
            Ok(
                FrameView::AttachAccepted {
                    session_id: p.subrange(0, 16),
                    epoch: from_be64(p.subrange(16, 24)),
                    attachment_id: p.subrange(24, 40),
                },
            )
        }
    } else if t == STREAM_OPEN {
        if p.len() != 8 {
            Err(FrameDecodeError::InvalidPayload)
        } else {
            Ok(FrameView::StreamOpen { flow_id: from_be64(p) })
        }
    } else if t == STREAM_DATA {
        if p.len() < 24 {
            Err(FrameDecodeError::InvalidPayload)
        } else if p.len() == 24 {
            Err(FrameDecodeError::EmptyStreamData)
        } else {
            Ok(
                FrameView::StreamData {
                    flow_id: from_be64(p.subrange(0, 8)),
                    epoch: from_be64(p.subrange(8, 16)),
                    sequence: from_be64(p.subrange(16, 24)),
                    bytes: p.subrange(24, p.len() as int),
                },
            )
        }
    } else if t == STREAM_ACK {
        if p.len() != 24 {
            Err(FrameDecodeError::InvalidPayload)
        } else {
            Ok(
                FrameView::StreamAcknowledgement {
                    flow_id: from_be64(p.subrange(0, 8)),
                    epoch: from_be64(p.subrange(8, 16)),
                    through: from_be64(p.subrange(16, 24)),
                },
            )
        }
    } else if t == STREAM_FINISH {
        if p.len() != 24 {
            Err(FrameDecodeError::InvalidPayload)
        } else {
            Ok(
                FrameView::StreamFinish {
                    flow_id: from_be64(p.subrange(0, 8)),
                    epoch: from_be64(p.subrange(8, 16)),
                    final_next_sequence: from_be64(p.subrange(16, 24)),
                },
            )
        }
    } else if t == STREAM_RESET {
        if p.len() != 10 {
            Err(FrameDecodeError::InvalidPayload)
        } else {
            Ok(
                FrameView::StreamReset {
                    flow_id: from_be64(p.subrange(0, 8)),
                    error: spec_error_from_code(from_be16(p.subrange(8, 10))),
                },
            )
        }
    } else if t == CONNECTION_CLOSE {
        if p.len() != 2 {
            Err(FrameDecodeError::InvalidPayload)
        } else {
            Ok(FrameView::ConnectionClose { error: spec_error_from_code(from_be16(p)) })
        }
    } else if t & OPTIONAL_FRAME_BIT != 0 {
        Ok(FrameView::UnknownOptional { frame_type: t, payload: p })
    } else {
        Err(FrameDecodeError::UnknownMandatoryFrame(t))
    }
}

/// The result of decoding one complete frame with the given payload bound.
pub open spec fn spec_decode_exact(b: Seq<u8>, maximum: usize) -> Result<FrameView, FrameDecodeError> {
    if b.len() < 4 {
        Err(FrameDecodeError::TruncatedHeader)
    } else {
        let advertised = from_be16(b.subrange(2, 4)) as usize;
        if advertised > maximum {
            Err(FrameDecodeError::PayloadTooLarge { maximum, actual: advertised })
        } else if b.len() - 4 != advertised {
            Err(FrameDecodeError::LengthMismatch { advertised, actual: (b.len() - 4) as usize })
        } else if b[1] != 0 {
            Err(FrameDecodeError::InvalidPayload)
        } else {
            spec_parse_payload(b[0], b.subrange(4, b.len() as int))
        }
    }
}

/// The bytes a frame encodes to, or why it cannot be encoded.
pub open spec fn spec_encode(v: FrameView) -> Result<Seq<u8>, FrameEncodeError> {
    if v matches FrameView::StreamData { bytes, .. } && bytes.len() == 0 {
        Err(FrameEncodeError::EmptyStreamData)
    } else if v matches FrameView::UnknownOptional { frame_type, .. } && frame_type
        & OPTIONAL_FRAME_BIT == 0 {
        Err(FrameEncodeError::InvalidOptionalFrameType(spec_frame_type(v)))
    } else if spec_payload(v).len() > MAX_FRAME_PAYLOAD {
        Err(
            FrameEncodeError::PayloadTooLarge {
                maximum: MAX_FRAME_PAYLOAD,
                actual: spec_payload(v).len() as usize,
            },
        )
    } else {
        Ok(seq![spec_frame_type(v), 0u8] + be16(spec_payload(v).len() as u16) + spec_payload(v))
    }
}

proof fn lemma_parameters_roundtrip(p: ParametersView)
    requires
        parameters_wf(p),
    ensures
        parameters_bytes(p).len() == 42,
        parse_parameters(parameters_bytes(p)) == p,
{
    lemma_be16_roundtrip(p.version);
    lemma_be64_roundtrip(p.capabilities);
    let s = parameters_bytes(p);
    assert(s.subrange(0, 2) =~= be16(p.version));
    assert(s.subrange(2, 10) =~= be64(p.capabilities));
    assert(s.subrange(10, 26) =~= p.client_nonce);
    assert(s.subrange(26, 42) =~= p.server_nonce);
}

proof fn lemma_parameters_canonical(s: Seq<u8>)
    requires
        s.len() == 42,
    ensures
        parameters_bytes(parse_parameters(s)) == s,
{
    lemma_from_be16_roundtrip(s.subrange(0, 2));
    lemma_from_be64_roundtrip(s.subrange(2, 10));
    assert(parameters_bytes(parse_parameters(s)) =~= s);
}

proof fn lemma_three_u64(a: u64, b: u64, c: u64)
    ensures
        (be64(a) + be64(b) + be64(c)).len() == 24,
        from_be64((be64(a) + be64(b) + be64(c)).subrange(0, 8)) == a,
        from_be64((be64(a) + be64(b) + be64(c)).subrange(8, 16)) == b,
        from_be64((be64(a) + be64(b) + be64(c)).subrange(16, 24)) == c,
{
    lemma_be64_roundtrip(a);
    lemma_be64_roundtrip(b);
    lemma_be64_roundtrip(c);
    let s = be64(a) + be64(b) + be64(c);
    assert(s.subrange(0, 8) =~= be64(a));
    assert(s.subrange(8, 16) =~= be64(b));
    assert(s.subrange(16, 24) =~= be64(c));
}

/// Every well-formed frame is decoded back to itself from its payload.
pub proof fn lemma_payload_roundtrip(v: FrameView)
    requires
        frame_wf(v),
    ensures
        spec_parse_payload(spec_frame_type(v), spec_payload(v)) == Ok::<FrameView, FrameDecodeError>(v),
{
    let p = spec_payload(v);
    match v {
        FrameView::NegotiationOffer { minimum, maximum, required, optional, client_nonce } => {
            lemma_be16_roundtrip(minimum);
            lemma_be16_roundtrip(maximum);
            lemma_be64_roundtrip(required);
            lemma_be64_roundtrip(optional);
            assert(p.subrange(0, 2) =~= be16(minimum));
            assert(p.subrange(2, 4) =~= be16(maximum));
            assert(p.subrange(4, 12) =~= be64(required));
            assert(p.subrange(12, 20) =~= be64(optional));
            assert(p.subrange(20, 36) =~= client_nonce);
        },
        FrameView::NegotiationAccept(params) => {
            lemma_parameters_roundtrip(params);
        },
        FrameView::Attach { session_id, epoch, attachment_id, parameters, proof } => {
            lemma_be64_roundtrip(epoch);
            lemma_parameters_roundtrip(parameters);
            assert(p.subrange(0, 16) =~= session_id);
            assert(p.subrange(16, 24) =~= be64(epoch));
            assert(p.subrange(24, 40) =~= attachment_id);
            assert(p.subrange(40, 82) =~= parameters_bytes(parameters));
            assert(p.subrange(82, 114) =~= proof);
        },
        FrameView::AttachAccepted { session_id, epoch, attachment_id } => {
            lemma_be64_roundtrip(epoch);
            assert(p.subrange(0, 16) =~= session_id);
            assert(p.subrange(16, 24) =~= be64(epoch));
            assert(p.subrange(24, 40) =~= attachment_id);
        },
        FrameView::StreamOpen { flow_id } => {
            lemma_be64_roundtrip(flow_id);
        },
        FrameView::StreamData { flow_id, epoch, sequence, bytes } => {
            lemma_three_u64(flow_id, epoch, sequence);
            assert(p.subrange(0, 8) =~= (be64(flow_id) + be64(epoch) + be64(sequence)).subrange(0, 8));
            assert(p.subrange(8, 16) =~= (be64(flow_id) + be64(epoch) + be64(sequence)).subrange(8, 16));
            assert(p.subrange(16, 24) =~= (be64(flow_id) + be64(epoch) + be64(sequence)).subrange(16, 24));
            assert(p.subrange(24, p.len() as int) =~= bytes);
        },
        FrameView::StreamAcknowledgement { flow_id, epoch, through } => {
            lemma_three_u64(flow_id, epoch, through);
        },
        FrameView::StreamFinish { flow_id, epoch, final_next_sequence } => {
            lemma_three_u64(flow_id, epoch, final_next_sequence);
        },
        FrameView::StreamReset { flow_id, error } => {
            lemma_be64_roundtrip(flow_id);
            lemma_be16_roundtrip(spec_error_code(error));
            assert(p.subrange(0, 8) =~= be64(flow_id));
            assert(p.subrange(8, 10) =~= be16(spec_error_code(error)));
        },
        FrameView::ConnectionClose { error } => {
            lemma_be16_roundtrip(spec_error_code(error));
        },
        FrameView::UnknownOptional { frame_type, .. } => {
            assert(frame_type & 0x80u8 != 0 ==> frame_type >= 0x80u8) by (bit_vector);
        },
    }
}

/// A payload that decodes is exactly the encoding of what it decodes to, and
/// what it decodes to is well formed.
pub proof fn lemma_payload_canonical(t: u8, p: Seq<u8>)
    ensures
        spec_parse_payload(t, p) matches Ok(v) ==> frame_wf(v) && spec_frame_type(v) == t
            && spec_payload(v) == p,
{
    if let Ok(v) = spec_parse_payload(t, p) {
        if t == NEGOTIATION_OFFER {
            lemma_from_be16_roundtrip(p.subrange(0, 2));
            lemma_from_be16_roundtrip(p.subrange(2, 4));
            lemma_from_be64_roundtrip(p.subrange(4, 12));
            lemma_from_be64_roundtrip(p.subrange(12, 20));
            assert(spec_payload(v) =~= p);
        } else if t == NEGOTIATION_ACCEPT {
            lemma_parameters_canonical(p);
        } else if t == ATTACH {
            lemma_from_be64_roundtrip(p.subrange(16, 24));
            lemma_parameters_canonical(p.subrange(40, 82));
            assert(spec_payload(v) =~= p);
        } else if t == ATTACH_ACCEPTED {
            lemma_from_be64_roundtrip(p.subrange(16, 24));
            assert(spec_payload(v) =~= p);
        } else if t == STREAM_OPEN {
            lemma_from_be64_roundtrip(p);
        } else if t == STREAM_DATA || t == STREAM_ACK || t == STREAM_FINISH {
            lemma_from_be64_roundtrip(p.subrange(0, 8));
            lemma_from_be64_roundtrip(p.subrange(8, 16));
            lemma_from_be64_roundtrip(p.subrange(16, 24));
            assert(spec_payload(v) =~= p);
        } else if t == STREAM_RESET {
            lemma_from_be64_roundtrip(p.subrange(0, 8));
            lemma_from_be16_roundtrip(p.subrange(8, 10));
            crate::protocol::lemma_error_code_wire_roundtrip(from_be16(p.subrange(8, 10)));
            assert(spec_payload(v) =~= p);
        } else if t == CONNECTION_CLOSE {
            lemma_from_be16_roundtrip(p);
            crate::protocol::lemma_error_code_wire_roundtrip(from_be16(p));
        }
    }
}

/// Encoding then decoding a well-formed frame with a sufficient payload bound
/// gives back the same frame.
pub proof fn lemma_frame_roundtrip(v: FrameView, maximum: usize)
    requires
        frame_wf(v),
        spec_payload(v).len() <= maximum,
        maximum <= MAX_FRAME_PAYLOAD,
    ensures
        spec_encode(v) is Ok,
        spec_decode_exact(spec_encode(v)->Ok_0, maximum) == Ok::<FrameView, FrameDecodeError>(v),
{
    let p = spec_payload(v);
    lemma_be16_roundtrip(p.len() as u16);
    lemma_payload_roundtrip(v);
    let b = seq![spec_frame_type(v), 0u8] + be16(p.len() as u16) + p;
    assert(b.subrange(2, 4) =~= be16(p.len() as u16));
    assert(b.subrange(4, b.len() as int) =~= p);
}

/// Decoding is canonical: bytes that decode are exactly the encoding of the
/// decoded frame.
pub proof fn lemma_frame_canonical(b: Seq<u8>, maximum: usize)
    requires
        spec_decode_exact(b, maximum) is Ok,
        maximum <= MAX_FRAME_PAYLOAD,
    ensures
        frame_wf(spec_decode_exact(b, maximum)->Ok_0),
        spec_encode(spec_decode_exact(b, maximum)->Ok_0) == Ok::<Seq<u8>, FrameEncodeError>(b),
{
    let p = b.subrange(4, b.len() as int);
    lemma_payload_canonical(b[0], p);
    lemma_from_be16_roundtrip(b.subrange(2, 4));
    let v = spec_decode_exact(b, maximum)->Ok_0;
    assert(seq![spec_frame_type(v), 0u8] + be16(p.len() as u16) + p =~= b);
}

/// Wire law: with a payload bound of at most the wire format's, the byte
/// strings that decode to a well-formed frame are exactly its encoding,
/// when that encoding fits the bound.
pub proof fn lemma_decodes_exactly_its_encoding(b: Seq<u8>, v: FrameView, maximum: usize)
    requires
        frame_wf(v),
        maximum <= MAX_FRAME_PAYLOAD,
    ensures
        spec_decode_exact(b, maximum) == Ok::<FrameView, FrameDecodeError>(v) <==> (spec_encode(v)
            == Ok::<Seq<u8>, FrameEncodeError>(b) && b.len() <= 4 + maximum),
{
    if spec_decode_exact(b, maximum) == Ok::<FrameView, FrameDecodeError>(v) {
        lemma_frame_canonical(b, maximum);
        lemma_from_be16_roundtrip(b.subrange(2, 4));
    }
    if spec_encode(v) == Ok::<Seq<u8>, FrameEncodeError>(b) && b.len() <= 4 + maximum {
        lemma_frame_roundtrip(v, maximum);
    }
}

fn push_version_range(bytes: &mut Vec<u8>, range: VersionRange)
    ensures
        final(bytes)@ == old(bytes)@ + be16(range.minimum) + be16(range.maximum),
{
    push_u16(bytes, range.minimum);
    push_u16(bytes, range.maximum);
}

fn push_parameters(bytes: &mut Vec<u8>, parameters: NegotiatedParameters)
    ensures
        final(bytes)@ == old(bytes)@ + parameters_bytes(parameters_view(parameters)),
{
    let canonical = parameters.canonical_bytes();
    push_all(bytes, &canonical);
    assert(final(bytes)@ =~= old(bytes)@ + parameters_bytes(parameters_view(parameters)));
}

fn push_error(bytes: &mut Vec<u8>, error: ProtocolErrorCode)
    ensures
        final(bytes)@ == old(bytes)@ + be16(spec_error_code(error)),
{
    push_u16(bytes, error.as_u16());
}

impl Frame {
    fn encode_payload(&self) -> (encoded: Result<(u8, Vec<u8>), FrameEncodeError>)
        ensures
            match encoded {
                Ok((t, payload)) => !(self@ matches FrameView::StreamData { bytes, .. }
                    && bytes.len() == 0) && !(self@ matches FrameView::UnknownOptional {
                    frame_type,
                    ..
                } && frame_type & OPTIONAL_FRAME_BIT == 0) && t == spec_frame_type(self@)
                    && payload@ == spec_payload(self@),
                Err(e) => spec_encode(self@) == Err::<Seq<u8>, FrameEncodeError>(e),
            },
    {
        let mut payload: Vec<u8> = Vec::new();
        let frame_type = match self {
            Frame::NegotiationOffer(offer) => {
                push_version_range(&mut payload, offer.versions);
                push_u64(&mut payload, offer.capabilities.required.0);
                push_u64(&mut payload, offer.capabilities.optional.0);
                let nonce = offer.client_nonce.bytes();
                push_all(&mut payload, &nonce);
                NEGOTIATION_OFFER
            },
            Frame::NegotiationAccept(parameters) => {
                push_parameters(&mut payload, *parameters);
                NEGOTIATION_ACCEPT
            },
            Frame::Attach { session_id, epoch, attachment_id, parameters, proof } => {
                push_all(&mut payload, &session_id.0);
                push_u64(&mut payload, epoch.0);
                let id = attachment_id.bytes();
                push_all(&mut payload, &id);
                push_parameters(&mut payload, *parameters);
                push_all(&mut payload, proof);
                ATTACH
            },
            Frame::AttachAccepted { session_id, epoch, attachment_id } => {
                push_all(&mut payload, &session_id.0);
                push_u64(&mut payload, epoch.0);
                let id = attachment_id.bytes();
                push_all(&mut payload, &id);
                ATTACH_ACCEPTED
            },
            Frame::StreamOpen { flow_id } => {
                push_u64(&mut payload, flow_id.0);
                STREAM_OPEN
            },
            Frame::StreamData { flow_id, epoch, sequence, bytes } => {
                if bytes.len() == 0 {
                    return Err(FrameEncodeError::EmptyStreamData);
                }
                push_u64(&mut payload, flow_id.0);
                push_u64(&mut payload, epoch.0);
                push_u64(&mut payload, sequence.0);
                push_all(&mut payload, bytes.as_slice());
                STREAM_DATA
            },
            Frame::StreamAcknowledgement { flow_id, epoch, through } => {
                push_u64(&mut payload, flow_id.0);
                push_u64(&mut payload, epoch.0);
                push_u64(&mut payload, through.0);
                STREAM_ACK
            },
            Frame::StreamFinish { flow_id, epoch, final_next_sequence } => {
                push_u64(&mut payload, flow_id.0);
                push_u64(&mut payload, epoch.0);
                push_u64(&mut payload, final_next_sequence.0);
                STREAM_FINISH
            },
            Frame::StreamReset { flow_id, error } => {
                push_u64(&mut payload, flow_id.0);
                push_error(&mut payload, *error);
                STREAM_RESET
            },
            Frame::ConnectionClose { error } => {
                push_error(&mut payload, *error);
                CONNECTION_CLOSE
            },
            Frame::UnknownOptional { frame_type, payload: unknown_payload } => {
                if *frame_type & OPTIONAL_FRAME_BIT == 0 {
                    return Err(FrameEncodeError::InvalidOptionalFrameType(*frame_type));
                }
                push_all(&mut payload, unknown_payload.as_slice());
                *frame_type
            },
        };
        assert(payload@ =~= spec_payload(self@));
        Ok((frame_type, payload))
    }

    /// Encodes the frame as type, a zero octet, the big-endian payload length
    /// and the payload.
    pub fn encode(&self) -> (encoded: Result<Vec<u8>, FrameEncodeError>)
        ensures
            match encoded {
                Ok(bytes) => spec_encode(self@) == Ok::<Seq<u8>, FrameEncodeError>(bytes@),
                Err(e) => spec_encode(self@) == Err::<Seq<u8>, FrameEncodeError>(e),
            },
    {
        let (frame_type, payload) = self.encode_payload()?;
        if payload.len() > MAX_FRAME_PAYLOAD {
            return Err(
                FrameEncodeError::PayloadTooLarge {
                    maximum: MAX_FRAME_PAYLOAD,
                    actual: payload.len(),
                },
            );
        }
        let payload_length = payload.len() as u16;
        let mut encoded: Vec<u8> = Vec::new();
        encoded.push(frame_type);
        encoded.push(0);
        push_u16(&mut encoded, payload_length);
        push_all(&mut encoded, payload.as_slice());
        assert(encoded@ =~= seq![frame_type, 0u8] + be16(payload_length) + payload@);
        Ok(encoded)
    }

    /// Decodes exactly one frame whose payload is at most `maximum_payload`.
    pub fn decode_exact(bytes: &[u8], maximum_payload: usize) -> (decoded: Result<
        Self,
        FrameDecodeError,
    >)
        ensures
            match decoded {
                Ok(frame) => spec_decode_exact(bytes@, maximum_payload) == Ok::<
                    FrameView,
                    FrameDecodeError,
                >(frame@),
                Err(e) => spec_decode_exact(bytes@, maximum_payload) == Err::<
                    FrameView,
                    FrameDecodeError,
                >(e),
            },
    {
        if bytes.len() < FRAME_HEADER_BYTES {
            return Err(FrameDecodeError::TruncatedHeader);
        }
        let advertised = read_u16(bytes, 2) as usize;
        if advertised > maximum_payload {
            return Err(FrameDecodeError::PayloadTooLarge { maximum: maximum_payload, actual: advertised });
        }
        let actual = bytes.len() - FRAME_HEADER_BYTES;
        if actual != advertised {
            return Err(FrameDecodeError::LengthMismatch { advertised, actual });
        }
        if bytes[1] != 0 {
            return Err(FrameDecodeError::InvalidPayload);
        }
        let payload = slice_subrange(bytes, FRAME_HEADER_BYTES, bytes.len());
        Self::decode_payload(bytes[0], payload)
    }

    fn decode_parameters(p: &[u8], offset: usize) -> (parameters: Result<
        NegotiatedParameters,
        FrameDecodeError,
    >)
        requires
            offset + 42 <= p@.len(),
        ensures
            match parameters {
                Ok(v) => parameters_wf(parse_parameters(p@.subrange(offset as int, offset + 42)))
                    && parameters_view(v) == parse_parameters(
                    p@.subrange(offset as int, offset + 42),
                ),
                Err(e) => !parameters_wf(parse_parameters(p@.subrange(offset as int, offset + 42)))
                    && e == FrameDecodeError::InvalidPayload,
            },
    {
        let ghost s = p@.subrange(offset as int, offset + 42);
        let _len = p.len();
        let version = read_u16(p, offset);
        let capabilities = read_u64(p, offset + 2);
        let client = read_array16(p, offset + 10);
        let server = read_array16(p, offset + 26);
        assert(s.subrange(0, 2) =~= p@.subrange(offset as int, offset + 2));
        assert(s.subrange(2, 10) =~= p@.subrange(offset + 2, offset + 10));
        assert(s.subrange(10, 26) =~= p@.subrange(offset + 10, offset + 26));
        assert(s.subrange(26, 42) =~= p@.subrange(offset + 26, offset + 42));
        let client_nonce = match HandshakeNonce::new(client) {
            Ok(n) => n,
            Err(_) => return Err(FrameDecodeError::InvalidPayload),
        };
        let server_nonce = match HandshakeNonce::new(server) {
            Ok(n) => n,
            Err(_) => return Err(FrameDecodeError::InvalidPayload),
        };
        Ok(
            NegotiatedParameters {
                version,
                capabilities: Capabilities(capabilities),
                client_nonce,
                server_nonce,
            },
        )
    }

    #[verifier::rlimit(40)]
    fn decode_payload(frame_type: u8, p: &[u8]) -> (decoded: Result<Self, FrameDecodeError>)
        ensures
            match decoded {
                Ok(frame) => spec_parse_payload(frame_type, p@) == Ok::<
                    FrameView,
                    FrameDecodeError,
                >(frame@),
                Err(e) => spec_parse_payload(frame_type, p@) == Err::<FrameView, FrameDecodeError>(
                    e,
                ),
            },
    {
        let len = p.len();
        if frame_type == NEGOTIATION_OFFER {
            if len != 36 {
                return Err(FrameDecodeError::InvalidPayload);
            }
            let minimum = read_u16(p, 0);
            let maximum = read_u16(p, 2);
            let required = read_u64(p, 4);
            let optional = read_u64(p, 12);
            let nonce = read_array16(p, 20);
            let versions = match VersionRange::new(minimum, maximum) {
                Ok(r) => r,
                Err(_) => return Err(FrameDecodeError::InvalidPayload),
            };
            let client_nonce = match HandshakeNonce::new(nonce) {
                Ok(n) => n,
                Err(_) => return Err(FrameDecodeError::InvalidPayload),
            };
            let capabilities = match CapabilityAdvertisement::new(
                Capabilities(required),
                Capabilities(optional),
            ) {
                Ok(c) => c,
                Err(_) => return Err(FrameDecodeError::InvalidPayload),
            };
            match NegotiationOffer::new(versions, capabilities, client_nonce) {
                Ok(offer) => Ok(Frame::NegotiationOffer(offer)),
                Err(_) => Err(FrameDecodeError::InvalidPayload),
            }
        } else if frame_type == NEGOTIATION_ACCEPT {
            if len != 42 {
                return Err(FrameDecodeError::InvalidPayload);
            }
            assert(p@.subrange(0, 42) =~= p@);
            let parameters = Self::decode_parameters(p, 0)?;
            Ok(Frame::NegotiationAccept(parameters))
        } else if frame_type == ATTACH {
            if len != 114 {
                return Err(FrameDecodeError::InvalidPayload);
            }
            let session = read_array16(p, 0);
            let epoch = read_u64(p, 16);
            let attachment = read_array16(p, 24);
            let attachment_id = match AttachmentId::new(attachment) {
                Ok(a) => a,
                Err(_) => return Err(FrameDecodeError::InvalidPayload),
            };
            let parameters = Self::decode_parameters(p, 40)?;
            let proof = read_array32(p, 82);
            Ok(
                Frame::Attach {
                    session_id: SessionId(session),
                    epoch: Epoch(epoch),
                    attachment_id,
                    parameters,
                    proof,
                },
            )
        } else if frame_type == ATTACH_ACCEPTED {
            if len != 40 {
                return Err(FrameDecodeError::InvalidPayload);
            }
            let session = read_array16(p, 0);
            let epoch = read_u64(p, 16);
            let attachment = read_array16(p, 24);
            let attachment_id = match AttachmentId::new(attachment) {
                Ok(a) => a,
                Err(_) => return Err(FrameDecodeError::InvalidPayload),
            };
            Ok(Frame::AttachAccepted { session_id: SessionId(session), epoch: Epoch(epoch), attachment_id })
        } else if frame_type == STREAM_OPEN {
            if len != 8 {
                return Err(FrameDecodeError::InvalidPayload);
            }
            let flow = read_u64(p, 0);
            assert(p@.subrange(0, 8) =~= p@);
            Ok(Frame::StreamOpen { flow_id: FlowId(flow) })
        } else if frame_type == STREAM_DATA {
            if len < 24 {
                return Err(FrameDecodeError::InvalidPayload);
            }
            let flow = read_u64(p, 0);
            let epoch = read_u64(p, 8);
            let sequence = read_u64(p, 16);
            let bytes = copy_range(p, 24, len);
            if bytes.len() == 0 {
                return Err(FrameDecodeError::EmptyStreamData);
            }
            Ok(
                Frame::StreamData {
                    flow_id: FlowId(flow),
                    epoch: Epoch(epoch),
                    sequence: Sequence(sequence),
                    bytes,
                },
            )
        } else if frame_type == STREAM_ACK {
            if len != 24 {
                return Err(FrameDecodeError::InvalidPayload);
            }
            Ok(
                Frame::StreamAcknowledgement {
                    flow_id: FlowId(read_u64(p, 0)),
                    epoch: Epoch(read_u64(p, 8)),
                    through: Sequence(read_u64(p, 16)),
                },
            )
        } else if frame_type == STREAM_FINISH {
            if len != 24 {
                return Err(FrameDecodeError::InvalidPayload);
            }
            Ok(
                Frame::StreamFinish {
                    flow_id: FlowId(read_u64(p, 0)),
                    epoch: Epoch(read_u64(p, 8)),
                    final_next_sequence: Sequence(read_u64(p, 16)),
                },
            )
        } else if frame_type == STREAM_RESET {
            if len != 10 {
                return Err(FrameDecodeError::InvalidPayload);
            }
            Ok(
                Frame::StreamReset {
                    flow_id: FlowId(read_u64(p, 0)),
                    error: ProtocolErrorCode::from_u16(read_u16(p, 8)),
                },
            )
        } else if frame_type == CONNECTION_CLOSE {
            if len != 2 {
                return Err(FrameDecodeError::InvalidPayload);
            }
            let code = read_u16(p, 0);
            assert(p@.subrange(0, 2) =~= p@);
            Ok(Frame::ConnectionClose { error: ProtocolErrorCode::from_u16(code) })
        } else if frame_type & OPTIONAL_FRAME_BIT != 0 {
            let payload = copy_range(p, 0, len);
            assert(p@.subrange(0, len as int) =~= p@);
            Ok(Frame::UnknownOptional { frame_type, payload })
        } else {
            Err(FrameDecodeError::UnknownMandatoryFrame(frame_type))
        }
    }
}

/// Where an incremental decoder stands after consuming some input.
pub enum FeedState {
    Running { buffered: Seq<u8>, frames: Seq<FrameView> },
    Failed { buffered: Seq<u8>, error: FrameDecodeError },
}

/// The effect of one more input byte on an incremental decoder.
pub open spec fn spec_feed_byte(
    maximum: usize,
    buffered: Seq<u8>,
    frames: Seq<FrameView>,
    byte: u8,
) -> FeedState {
    let b = buffered.push(byte);
    if b.len() < 4 {
        FeedState::Running { buffered: b, frames }
    } else {
        let advertised = from_be16(b.subrange(2, 4)) as usize;
        if advertised > maximum {
            FeedState::Failed {
                buffered: Seq::empty(),
                error: FrameDecodeError::PayloadTooLarge { maximum, actual: advertised },
            }
        } else if b.len() < 4 + advertised {
            FeedState::Running { buffered: b, frames }
        } else {
            match spec_decode_exact(b.subrange(0, 4 + advertised), maximum) {
                Ok(v) => FeedState::Running {
                    buffered: b.subrange(4 + advertised, b.len() as int),
                    frames: frames.push(v),
                },
                Err(e) => FeedState::Failed { buffered: Seq::empty(), error: e },
            }
        }
    }
}

/// The effect of a whole input on an incremental decoder, byte by byte; the
/// first failure stops it.
pub open spec fn spec_feed(
    maximum: usize,
    buffered: Seq<u8>,
    frames: Seq<FrameView>,
    input: Seq<u8>,
) -> FeedState
    decreases input.len(),
{
    if input.len() == 0 {
        FeedState::Running { buffered, frames }
    } else {
        match spec_feed(maximum, buffered, frames, input.drop_last()) {
            FeedState::Running { buffered: b, frames: fs } => spec_feed_byte(
                maximum,
                b,
                fs,
                input.last(),
            ),
            failed => failed,
        }
    }
}

/// Continues a decoder state with more input.
pub open spec fn spec_feed_from(maximum: usize, state: FeedState, input: Seq<u8>) -> FeedState {
    match state {
        FeedState::Running { buffered, frames } => spec_feed(maximum, buffered, frames, input),
        failed => failed,
    }
}

/// Feeding two inputs one after the other is feeding their concatenation:
/// how the input is split into reads does not matter.
pub proof fn lemma_feed_concat(
    maximum: usize,
    buffered: Seq<u8>,
    frames: Seq<FrameView>,
    a: Seq<u8>,
    b: Seq<u8>,
)
    ensures
        spec_feed(maximum, buffered, frames, a + b) == spec_feed_from(
            maximum,
            spec_feed(maximum, buffered, frames, a),
            b,
        ),
    decreases b.len(),
{
    if b.len() == 0 {
        assert(a + b =~= a);
    } else {
        lemma_feed_concat(maximum, buffered, frames, a, b.drop_last());
        assert((a + b).drop_last() =~= a + b.drop_last());
        assert((a + b).last() == b.last());
    }
}

proof fn lemma_feed_partial_frame(maximum: usize, frames: Seq<FrameView>, e: Seq<u8>, k: int)
    requires
        e.len() >= 4,
        from_be16(e.subrange(2, 4)) as int + 4 == e.len(),
        from_be16(e.subrange(2, 4)) <= maximum,
        0 <= k < e.len(),
    ensures
        spec_feed(maximum, Seq::empty(), frames, e.subrange(0, k)) == (FeedState::Running {
            buffered: e.subrange(0, k),
            frames,
        }),
    decreases k,
{
    if k == 0 {
        assert(e.subrange(0, 0) =~= Seq::<u8>::empty());
    } else {
        lemma_feed_partial_frame(maximum, frames, e, k - 1);
        let next = e.subrange(0, k);
        assert(next.drop_last() =~= e.subrange(0, k - 1));
        assert(e.subrange(0, k - 1).push(e[k - 1]) =~= next);
        if k >= 4 {
            assert(next.subrange(2, 4) =~= e.subrange(2, 4));
        }
    }
}

/// Feeding the encoding of one well-formed frame into an empty decoder yields
/// exactly that frame and leaves nothing buffered.
#[verifier::spinoff_prover]
#[verifier::rlimit(40)]
pub proof fn lemma_feed_one_frame(maximum: usize, frames: Seq<FrameView>, v: FrameView)
    requires
        frame_wf(v),
        spec_payload(v).len() <= maximum,
        maximum <= MAX_FRAME_PAYLOAD,
    ensures
        spec_encode(v) is Ok,
        spec_feed(maximum, Seq::empty(), frames, spec_encode(v)->Ok_0) == (FeedState::Running {
            buffered: Seq::empty(),
            frames: frames.push(v),
        }),
{
    lemma_frame_roundtrip(v, maximum);
    let e = spec_encode(v)->Ok_0;
    let total = e.len() as int;
    lemma_be16_roundtrip(spec_payload(v).len() as u16);
    assert(e.subrange(2, 4) =~= be16(spec_payload(v).len() as u16));
    lemma_feed_partial_frame(maximum, frames, e, total - 1);
    let last = e.subrange(0, total);
    assert(last.drop_last() =~= e.subrange(0, total - 1));
    assert(e.subrange(0, total - 1).push(e[total - 1]) =~= last);
    assert(last =~= e);
    assert(e.subrange(0, 4 + from_be16(e.subrange(2, 4)) as usize) =~= e);
    assert(e.subrange(total, total) =~= Seq::<u8>::empty());
}

/// The concatenated encodings of a sequence of frames.
pub open spec fn spec_encode_all(vs: Seq<FrameView>) -> Seq<u8>
    decreases vs.len(),
{
    if vs.len() == 0 {
        Seq::empty()
    } else {
        spec_encode_all(vs.drop_last()) + spec_encode(vs.last())->Ok_0
    }
}

/// Feeding the concatenated encodings of well-formed frames into an empty
/// decoder yields exactly those frames in order and leaves nothing buffered.
pub proof fn lemma_feed_frames(maximum: usize, vs: Seq<FrameView>)
    requires
        maximum <= MAX_FRAME_PAYLOAD,
        forall|i: int| 0 <= i < vs.len() ==> #[trigger] frame_wf(vs[i]) && spec_payload(vs[i]).len()
            <= maximum,
    ensures
        spec_feed(maximum, Seq::empty(), Seq::empty(), spec_encode_all(vs)) == (FeedState::Running {
            buffered: Seq::empty(),
            frames: vs,
        }),
    decreases vs.len(),
{
    if vs.len() == 0 {
        assert(vs =~= Seq::<FrameView>::empty());
    } else {
        let init = vs.drop_last();
        assert forall|i: int| 0 <= i < init.len() implies #[trigger] frame_wf(init[i])
            && spec_payload(init[i]).len() <= maximum by {
            assert(init[i] == vs[i]);
        }
        lemma_feed_frames(maximum, init);
        assert(frame_wf(vs[vs.len() - 1]));
        lemma_feed_concat(
            maximum,
            Seq::empty(),
            Seq::empty(),
            spec_encode_all(init),
            spec_encode(vs.last())->Ok_0,
        );
        lemma_feed_one_frame(maximum, init, vs.last());
        assert(init.push(vs.last()) =~= vs);
    }
}

/// `state` with `earlier` frames decoded before its own.
pub open spec fn after_frames(earlier: Seq<FrameView>, state: FeedState) -> FeedState {
    match state {
        FeedState::Running { buffered, frames } => FeedState::Running {
            buffered,
            frames: earlier + frames,
        },
        failed => failed,
    }
}

/// Frames decoded before an input do not change what the input decodes.
pub proof fn lemma_feed_after_frames(
    maximum: usize,
    buffered: Seq<u8>,
    earlier: Seq<FrameView>,
    input: Seq<u8>,
)
    ensures
        spec_feed(maximum, buffered, earlier, input) == after_frames(
            earlier,
            spec_feed(maximum, buffered, Seq::empty(), input),
        ),
    decreases input.len(),
{
    if input.len() == 0 {
        assert(earlier + Seq::<FrameView>::empty() =~= earlier);
    } else {
        lemma_feed_after_frames(maximum, buffered, earlier, input.drop_last());
        match spec_feed(maximum, buffered, Seq::empty(), input.drop_last()) {
            FeedState::Running { buffered: b, frames: fs } => {
                let b2 = b.push(input.last());
                if b2.len() >= 4 {
                    let advertised = from_be16(b2.subrange(2, 4)) as usize;
                    if advertised <= maximum && b2.len() >= 4 + advertised {
                        if let Ok(v) = spec_decode_exact(b2.subrange(0, 4 + advertised), maximum) {
                            assert((earlier + fs).push(v) =~= earlier + fs.push(v));
                        }
                    }
                }
            },
            FeedState::Failed { .. } => {},
        }
    }
}

/// The concatenation of `chunks`, in order.
pub open spec fn concat_chunks(chunks: Seq<Seq<u8>>) -> Seq<u8>
    decreases chunks.len(),
{
    if chunks.len() == 0 {
        Seq::empty()
    } else {
        concat_chunks(chunks.drop_last()) + chunks.last()
    }
}

/// What pushing `chunks` one after another into a decoder holding `buffered`
/// gives, as `push` states each call: every frame the pushes return, in
/// order, and what stays buffered; or the first failure.
pub open spec fn spec_push_all(maximum: usize, buffered: Seq<u8>, chunks: Seq<Seq<u8>>) -> FeedState
    decreases chunks.len(),
{
    if chunks.len() == 0 {
        FeedState::Running { buffered, frames: Seq::empty() }
    } else {
        match spec_push_all(maximum, buffered, chunks.drop_last()) {
            FeedState::Running { buffered: b, frames } => after_frames(
                frames,
                spec_feed(maximum, b, Seq::empty(), chunks.last()),
            ),
            failed => failed,
        }
    }
}

/// Successive pushes decode what one push of their concatenation decodes.
pub proof fn lemma_push_all_is_one_feed(maximum: usize, buffered: Seq<u8>, chunks: Seq<Seq<u8>>)
    ensures
        spec_push_all(maximum, buffered, chunks) == spec_feed(
            maximum,
            buffered,
            Seq::empty(),
            concat_chunks(chunks),
        ),
    decreases chunks.len(),
{
    if chunks.len() > 0 {
        let init = chunks.drop_last();
        lemma_push_all_is_one_feed(maximum, buffered, init);
        lemma_feed_concat(maximum, buffered, Seq::empty(), concat_chunks(init), chunks.last());
        if let FeedState::Running { buffered: b, frames } = spec_push_all(maximum, buffered, init) {
            lemma_feed_after_frames(maximum, b, frames, chunks.last());
        }
    }
}

/// Chunking law: pushing the concatenated encodings of well-formed frames
/// into a fresh decoder, split into any chunks, returns exactly those frames
/// in order across the pushes, with no failure, and leaves nothing buffered.
pub proof fn lemma_chunked_frames(maximum: usize, vs: Seq<FrameView>, chunks: Seq<Seq<u8>>)
    requires
        maximum <= MAX_FRAME_PAYLOAD,
        forall|i: int| 0 <= i < vs.len() ==> #[trigger] frame_wf(vs[i]) && spec_payload(vs[i]).len()
            <= maximum,
        concat_chunks(chunks) == spec_encode_all(vs),
    ensures
        spec_push_all(maximum, Seq::empty(), chunks) == (FeedState::Running {
            buffered: Seq::empty(),
            frames: vs,
        }),
{
    lemma_push_all_is_one_feed(maximum, Seq::empty(), chunks);
    lemma_feed_frames(maximum, vs);
}

/// Incremental decoder that never retains more than one declared frame.
#[derive(Debug)]
pub struct FrameDecoder {
    maximum_payload: usize,
    buffered: Vec<u8>,
}

pub open spec fn frames_view(frames: Seq<Frame>) -> Seq<FrameView> {
    frames.map_values(|f: Frame| f@)
}

impl FrameDecoder {
    pub closed spec fn spec_maximum(&self) -> usize {
        self.maximum_payload
    }

    pub closed spec fn spec_buffered(&self) -> Seq<u8> {
        self.buffered@
    }

    /// The buffer holds at most an incomplete frame within the bound.
    pub closed spec fn wf(&self) -> bool {
        let b = self.buffered@;
        &&& self.maximum_payload <= MAX_FRAME_PAYLOAD
        &&& b.len() >= 4 ==> {
            let advertised = from_be16(b.subrange(2, 4)) as usize;
            &&& advertised <= self.maximum_payload
            &&& b.len() < 4 + advertised
        }
    }

    /// A well-formed decoder keeps less than one whole declared frame.
    pub proof fn lemma_buffer_bound(&self)
        requires
            self.wf(),
        ensures
            self.spec_buffered().len() < 4 + self.spec_maximum(),
    {
    }

    /// Builds a decoder; refused when the bound exceeds the wire format's.
    pub fn new(maximum_payload: usize) -> (decoder: Result<Self, FrameDecodeError>)
        ensures
            decoder is Ok <==> maximum_payload <= MAX_FRAME_PAYLOAD,
            decoder matches Ok(d) ==> d.wf() && d.spec_maximum() == maximum_payload
                && d.spec_buffered() == Seq::<u8>::empty(),
            decoder matches Err(e) ==> e == (FrameDecodeError::PayloadTooLarge {
                maximum: MAX_FRAME_PAYLOAD,
                actual: maximum_payload,
            }),
    {
        if maximum_payload > MAX_FRAME_PAYLOAD {
            return Err(
                FrameDecodeError::PayloadTooLarge { maximum: MAX_FRAME_PAYLOAD, actual: maximum_payload },
            );
        }
        Ok(FrameDecoder { maximum_payload, buffered: Vec::new() })
    }

    /// Appends bytes and returns every frame they complete, in order.
    pub fn push(&mut self, bytes: &[u8]) -> (decoded: Result<Vec<Frame>, FrameDecodeError>)
        requires
            old(self).wf(),
        ensures
            final(self).wf(),
            final(self).spec_maximum() == old(self).spec_maximum(),
            final(self).spec_buffered().len() <= 4 + final(self).spec_maximum(),
            decoded is Ok ==> final(self).spec_buffered().len() < 4 + final(self).spec_maximum(),
            decoded is Err ==> final(self).spec_buffered().len() == 0,
            match spec_feed(old(self).spec_maximum(), old(self).spec_buffered(), Seq::empty(), bytes@) {
                FeedState::Running { buffered, frames } => decoded is Ok && frames_view(
                    decoded->Ok_0@,
                ) == frames && final(self).spec_buffered() == buffered,
                FeedState::Failed { buffered, error } => decoded == Err::<Vec<Frame>, FrameDecodeError>(
                    error,
                ) && final(self).spec_buffered() == buffered,
            },
    {
        let ghost start = self.buffered@;
        let maximum = self.maximum_payload;
        let mut frames: Vec<Frame> = Vec::new();
        let mut i: usize = 0;
        assert(bytes@.subrange(0, 0) =~= Seq::<u8>::empty());
        assert(frames_view(frames@) =~= Seq::<FrameView>::empty());
        while i < bytes.len()
            invariant
                i <= bytes@.len(),
                start == old(self).spec_buffered(),
                maximum == old(self).spec_maximum(),
                self.wf(),
                self.maximum_payload == maximum,
                spec_feed(maximum, start, Seq::empty(), bytes@.subrange(0, i as int)) == (
                FeedState::Running { buffered: self.buffered@, frames: frames_view(frames@) }),
            decreases bytes@.len() - i,
        {
            let ghost before = self.buffered@;
            assert(bytes@.subrange(0, i + 1).drop_last() =~= bytes@.subrange(0, i as int));
            self.buffered.push(bytes[i]);
            let len = self.buffered.len();
            i = i + 1;
            if len >= FRAME_HEADER_BYTES {
                let advertised = read_u16(self.buffered.as_slice(), 2) as usize;
                assert(self.buffered@.subrange(2, 4) =~= before.push(bytes@[i - 1]).subrange(2, 4));
                if advertised > maximum {
                    self.buffered.clear();
                    proof {
                        lemma_feed_concat(maximum, start, Seq::empty(), bytes@.subrange(0, i as int), bytes@.subrange(i as int, bytes@.len() as int));
                        assert(bytes@.subrange(0, i as int) + bytes@.subrange(i as int, bytes@.len() as int) =~= bytes@);
                    }
                    return Err(FrameDecodeError::PayloadTooLarge { maximum, actual: advertised });
                }
                let total = FRAME_HEADER_BYTES + advertised;
                if len >= total {
                    let candidate = slice_subrange(self.buffered.as_slice(), 0, total);
                    let frame = match Frame::decode_exact(candidate, maximum) {
                        Ok(frame) => frame,
                        Err(e) => {
                            proof {
                                lemma_feed_concat(maximum, start, Seq::empty(), bytes@.subrange(0, i as int), bytes@.subrange(i as int, bytes@.len() as int));
                                assert(bytes@.subrange(0, i as int) + bytes@.subrange(i as int, bytes@.len() as int) =~= bytes@);
                                if before.len() >= 4 {
                                    assert(before.subrange(2, 4) =~= self.buffered@.subrange(2, 4));
                                }
                            }
                            self.buffered.clear();
                            return Err(e);
                        },
                    };
                    proof {
                        if before.len() >= 4 {
                            assert(before.subrange(2, 4) =~= self.buffered@.subrange(2, 4));
                            if before.len() >= total {
                                assert(before.subrange(0, total as int) =~= self.buffered@.subrange(0, total as int));
                            }
                        }
                    }
                    assert(len == total);
                    self.buffered = Vec::new();
                    let ghost old_frames = frames@;
                    frames.push(frame);
                    assert(frames_view(frames@) =~= frames_view(old_frames).push(frame@));
                    assert(before.push(bytes@[i - 1]).subrange(total as int, len as int) =~= Seq::<u8>::empty());
                }
            }
        }
        assert(bytes@.subrange(0, i as int) =~= bytes@);
        Ok(frames)
    }

    /// How many bytes of an incomplete frame are buffered.
    pub fn buffered_len(&self) -> (len: usize)
        ensures
            len == self.spec_buffered().len(),
    {
        self.buffered.len()
    }
}

} // verus!
