use velum::frame::{Frame, FrameDecodeError, FrameDecoder, FrameEncodeError, MAX_FRAME_PAYLOAD};
use velum::protocol::{
    AttachmentId, Capabilities, CapabilityAdvertisement, Epoch, FlowId, HandshakeNonce,
    NegotiatedParameters, NegotiationError, NegotiationOffer, ProtocolErrorCode, Sequence,
    SessionId, VersionRange, VersionRangeError,
};

const STREAM_OPEN: u8 = 0x10;
const STREAM_DATA: u8 = 0x11;

fn nonce(byte: u8) -> HandshakeNonce {
    HandshakeNonce::new([byte; 16]).expect("non-zero nonce")
}

fn parameters() -> NegotiatedParameters {
    NegotiationOffer::new(
        VersionRange::new(0, 0).expect("range"),
        CapabilityAdvertisement::new(Capabilities::reliable_stream(), Capabilities(0))
            .expect("capabilities"),
        nonce(1),
    )
    .expect("offer")
    .negotiate(
        VersionRange::new(0, 0).expect("range"),
        Capabilities::reliable_stream(),
        nonce(2),
    )
    .expect("parameters")
}

#[test]
fn invalid_ranges_cannot_negotiate() {
    assert_eq!(
        VersionRange::new(2, 1),
        Err(VersionRangeError::InvalidRange)
    );
    assert_eq!(
        VersionRange {
            minimum: 2,
            maximum: 1,
        }
        .negotiate(VersionRange {
            minimum: 0,
            maximum: 3,
        }),
        None
    );
}

#[test]
fn required_capabilities_fail_closed_and_optional_capabilities_downgrade_cleanly() {
    assert_eq!(
        NegotiationOffer::new(
            VersionRange::new(0, 0).expect("range"),
            CapabilityAdvertisement::new(Capabilities(0), Capabilities::reliable_stream())
                .expect("capabilities"),
            nonce(1),
        ),
        Err(NegotiationError::MissingReliableStream)
    );
    let offer = NegotiationOffer::new(
        VersionRange::new(0, 2).expect("range"),
        CapabilityAdvertisement::new(
            Capabilities::reliable_stream(),
            Capabilities::unreliable_datagram(),
        )
        .expect("capabilities"),
        nonce(1),
    )
    .expect("offer");

    assert_eq!(
        offer.negotiate(
            VersionRange::new(1, 3).expect("range"),
            Capabilities::reliable_stream(),
            nonce(2),
        ),
        Ok(NegotiatedParameters {
            version: 2,
            capabilities: Capabilities::reliable_stream(),
            client_nonce: nonce(1),
            server_nonce: nonce(2),
        })
    );

    assert_eq!(
        offer.negotiate(
            VersionRange::new(1, 3).expect("range"),
            Capabilities::unreliable_datagram(),
            nonce(2),
        ),
        Err(NegotiationError::UnsupportedRequiredCapability)
    );
}

#[test]
fn response_validation_rejects_changed_nonce_or_capability() {
    let offer = NegotiationOffer::new(
        VersionRange::new(0, 0).expect("range"),
        CapabilityAdvertisement::new(Capabilities::reliable_stream(), Capabilities(0))
            .expect("capabilities"),
        nonce(3),
    )
    .expect("offer");
    let selected = offer
        .negotiate(
            VersionRange::new(0, 0).expect("range"),
            Capabilities::reliable_stream(),
            nonce(4),
        )
        .expect("selection");
    assert_eq!(selected.validate_for(offer), Ok(()));
    assert_eq!(
        NegotiatedParameters {
            client_nonce: nonce(5),
            ..selected
        }
        .validate_for(offer),
        Err(NegotiationError::InvalidSelection)
    );
}

#[test]
fn all_known_frames_round_trip_canonically() {
    let frames = [
        Frame::NegotiationOffer(
            NegotiationOffer::new(
                VersionRange::new(0, 0).expect("range"),
                CapabilityAdvertisement::new(Capabilities::reliable_stream(), Capabilities(0))
                    .expect("capabilities"),
                nonce(1),
            )
            .expect("offer"),
        ),
        Frame::NegotiationAccept(parameters()),
        Frame::Attach {
            session_id: SessionId([3; 16]),
            epoch: Epoch(5),
            attachment_id: AttachmentId::new([4; 16]).expect("attachment id"),
            parameters: parameters(),
            proof: [6; 32],
        },
        Frame::AttachAccepted {
            session_id: SessionId([3; 16]),
            epoch: Epoch(5),
            attachment_id: AttachmentId::new([4; 16]).expect("attachment id"),
        },
        Frame::StreamOpen { flow_id: FlowId(7) },
        Frame::StreamData {
            flow_id: FlowId(7),
            epoch: Epoch(5),
            sequence: Sequence(8),
            bytes: vec![9, 10],
        },
        Frame::StreamAcknowledgement {
            flow_id: FlowId(7),
            epoch: Epoch(5),
            through: Sequence(8),
        },
        Frame::StreamFinish {
            flow_id: FlowId(7),
            epoch: Epoch(5),
            final_next_sequence: Sequence(9),
        },
        Frame::StreamReset {
            flow_id: FlowId(7),
            error: ProtocolErrorCode::FlowState,
        },
        Frame::ConnectionClose {
            error: ProtocolErrorCode::ResourceLimit,
        },
    ];

    for frame in frames {
        let encoded = frame.encode().expect("encode");
        assert_eq!(Frame::decode_exact(&encoded, MAX_FRAME_PAYLOAD), Ok(frame));
    }
}

#[test]
fn decoder_handles_split_and_coalesced_frames_without_unbounded_buffering() {
    let first = Frame::StreamOpen { flow_id: FlowId(1) }
        .encode()
        .expect("encode");
    let second = Frame::ConnectionClose {
        error: ProtocolErrorCode::ProtocolViolation,
    }
    .encode()
    .expect("encode");
    let mut decoder = FrameDecoder::new(64).expect("decoder");
    let mut encoded = first;
    encoded.extend_from_slice(&second);
    let mut decoded = Vec::new();
    for byte in encoded {
        decoded.extend(decoder.push(&[byte]).expect("incremental decode"));
    }
    assert_eq!(
        decoded,
        vec![
            Frame::StreamOpen { flow_id: FlowId(1) },
            Frame::ConnectionClose {
                error: ProtocolErrorCode::ProtocolViolation,
            },
        ]
    );
    assert_eq!(decoder.buffered_len(), 0);
}

#[test]
fn canonical_vectors_use_network_byte_order_and_no_implicit_fields() {
    let offer = Frame::NegotiationOffer(
        NegotiationOffer::new(
            VersionRange::new(0, 0).expect("range"),
            CapabilityAdvertisement::new(Capabilities::reliable_stream(), Capabilities(0))
                .expect("capabilities"),
            nonce(1),
        )
        .expect("offer"),
    );
    assert_eq!(
        offer.encode().expect("encode"),
        vec![
            // Envelope, version range, and required capabilities.
            0x01, 0x00, 0x00, 0x24, 0x00, 0x00, 0x00, 0x00, 0x00, 0x00, 0x00, 0x00, 0x00, 0x00,
            0x00, 0x01,
            // Optional capabilities followed by the 16-octet client nonce.
            0x00, 0x00, 0x00, 0x00, 0x00, 0x00, 0x00, 0x00, 0x01, 0x01, 0x01, 0x01, 0x01, 0x01,
            0x01, 0x01, 0x01, 0x01, 0x01, 0x01, 0x01, 0x01, 0x01, 0x01,
        ]
    );
    let data = Frame::StreamData {
        flow_id: FlowId(1),
        epoch: Epoch(2),
        sequence: Sequence(3),
        bytes: vec![0xaa],
    };
    assert_eq!(
        data.encode().expect("encode"),
        vec![
            0x11, 0x00, 0x00, 0x19, 0x00, 0x00, 0x00, 0x00, 0x00, 0x00, 0x00, 0x01, 0x00, 0x00,
            0x00, 0x00, 0x00, 0x00, 0x00, 0x02, 0x00, 0x00, 0x00, 0x00, 0x00, 0x00, 0x00, 0x03,
            0xaa,
        ]
    );
}

#[test]
fn oversized_and_unknown_mandatory_frames_fail_closed() {
    let oversized = [STREAM_DATA, 0, 0, 65];
    assert_eq!(
        Frame::decode_exact(&oversized, 64),
        Err(FrameDecodeError::PayloadTooLarge {
            maximum: 64,
            actual: 65,
        })
    );
    assert_eq!(
        Frame::decode_exact(&[0x40, 0, 0, 0], MAX_FRAME_PAYLOAD),
        Err(FrameDecodeError::UnknownMandatoryFrame(0x40))
    );
    assert_eq!(
        Frame::decode_exact(
            &[STREAM_OPEN, 1, 0, 8, 0, 0, 0, 0, 0, 0, 0, 1],
            MAX_FRAME_PAYLOAD,
        ),
        Err(FrameDecodeError::InvalidPayload)
    );
}

#[test]
fn unknown_optional_frame_round_trips_but_mandatory_optional_bit_is_enforced() {
    let frame = Frame::UnknownOptional {
        frame_type: 0x91,
        payload: vec![1, 2],
    };
    let encoded = frame.encode().expect("encode");
    assert_eq!(Frame::decode_exact(&encoded, 64), Ok(frame));
    assert_eq!(
        Frame::UnknownOptional {
            frame_type: 0x21,
            payload: vec![],
        }
        .encode(),
        Err(FrameEncodeError::InvalidOptionalFrameType(0x21))
    );
}

#[test]
fn empty_data_is_rejected_to_prevent_sequence_flooding() {
    assert_eq!(
        Frame::StreamData {
            flow_id: FlowId(1),
            epoch: Epoch(1),
            sequence: Sequence(1),
            bytes: vec![],
        }
        .encode(),
        Err(FrameEncodeError::EmptyStreamData)
    );
    assert_eq!(
        Frame::decode_exact(
            &[
                STREAM_DATA, 0, 0, 24, 0, 0, 0, 0, 0, 0, 0, 1, 0, 0, 0, 0, 0, 0, 0, 1, 0, 0, 0, 0,
                0, 0, 0, 1,
            ],
            MAX_FRAME_PAYLOAD,
        ),
        Err(FrameDecodeError::EmptyStreamData)
    );
}

#[test]
fn error_codes_round_trip_through_their_wire_values() {
    assert_eq!(ProtocolErrorCode::from_u16(0x00ff), ProtocolErrorCode::Internal);
    assert_eq!(ProtocolErrorCode::Internal.as_u16(), 0x00ff);
    assert_eq!(ProtocolErrorCode::from_u16(0x1234), ProtocolErrorCode::Unknown(0x1234));
    assert_eq!(ProtocolErrorCode::from_u16(ProtocolErrorCode::FlowState.as_u16()), ProtocolErrorCode::FlowState);
}

#[test]
fn negotiation_is_symmetric_and_picks_the_newest_shared_version() {
    let a = VersionRange::new(1, 5).expect("range");
    let b = VersionRange::new(3, 9).expect("range");
    assert_eq!(a.negotiate(b), Some(5));
    assert_eq!(b.negotiate(a), Some(5));
    assert_eq!(a.negotiate(VersionRange::new(6, 9).expect("range")), None);
}

#[test]
fn canonical_parameters_are_forty_two_octets_in_network_order() {
    let bytes = parameters().canonical_bytes();
    assert_eq!(bytes.len(), 42);
    assert_eq!(&bytes[0..10], &[0, 0, 0, 0, 0, 0, 0, 0, 0, 1]);
    assert_eq!(&bytes[10..26], &[1; 16]);
    assert_eq!(&bytes[26..42], &[2; 16]);
}

#[test]
fn all_zero_identifiers_are_rejected() {
    assert!(HandshakeNonce::new([0; 16]).is_err());
    assert!(AttachmentId::new([0; 16]).is_err());
}

#[test]
fn decoder_rejects_an_oversized_header_and_clears_its_buffer() {
    let mut decoder = FrameDecoder::new(8).expect("decoder");
    assert_eq!(
        decoder.push(&[STREAM_DATA, 0, 0, 9]),
        Err(FrameDecodeError::PayloadTooLarge { maximum: 8, actual: 9 })
    );
    assert_eq!(decoder.buffered_len(), 0);
    assert!(FrameDecoder::new(MAX_FRAME_PAYLOAD + 1).is_err());
}

#[test]
fn decoder_returns_coalesced_frames_from_one_read() {
    let mut bytes = Frame::StreamOpen { flow_id: FlowId(4) }.encode().expect("encode");
    bytes.extend(Frame::StreamOpen { flow_id: FlowId(5) }.encode().expect("encode"));
    bytes.extend([STREAM_OPEN, 0]);
    let mut decoder = FrameDecoder::new(64).expect("decoder");
    let frames = decoder.push(&bytes).expect("decode");
    assert_eq!(
        frames,
        vec![Frame::StreamOpen { flow_id: FlowId(4) }, Frame::StreamOpen { flow_id: FlowId(5) }]
    );
    assert_eq!(decoder.buffered_len(), 2);
}

#[test]
fn decoder_forgets_a_frame_that_failed_to_decode() {
    let mut decoder = FrameDecoder::new(0).expect("decoder");
    assert!(decoder.push(&[0x7f, 0, 0, 0]).is_err());
    assert_eq!(decoder.buffered_len(), 0);
    assert_eq!(decoder.push(&[0]).expect("partial header"), Vec::<Frame>::new());
    assert_eq!(decoder.buffered_len(), 1);
    assert!(decoder.buffered_len() <= 4);
}
