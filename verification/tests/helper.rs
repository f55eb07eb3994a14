use velum::helper::{
    check_body, check_version, encode_frame, CodecError, RequestDecoder, FRAME_HEADER_LENGTH,
    MAX_FRAME_LENGTH,
};

const HELLO: &[u8] = br#"{"version":1,"request_id":17,"profile_generation":8,"capabilities":["tun","route_transaction","crash_recovery"],"command":"hello","parameters":{}}"#;
const STATUS: &[u8] = br#"{"version":1,"request_id":17,"profile_generation":8,"capabilities":["tun","route_transaction","crash_recovery"],"command":"status","parameters":{}}"#;

#[test]
fn incremental_decoder_accepts_fragmented_and_coalesced_frames() {
    let hello = encode_frame(HELLO).expect("hello");
    let status = encode_frame(STATUS).expect("status");
    let split = hello.len() / 2;
    let mut decoder = RequestDecoder::new();

    let first = decoder.push(&hello[..split]);
    assert!(first.bodies.is_empty());
    assert_eq!(first.error, None);
    let mut remainder = hello[split..].to_vec();
    remainder.extend_from_slice(&status);
    let decoded = decoder.push(&remainder);

    assert_eq!(decoded.error, None);
    assert_eq!(decoded.bodies, vec![HELLO.to_vec(), STATUS.to_vec()]);
    assert_eq!(decoder.buffered_len(), 0);
    assert_eq!(decoder.expected_body_length(), None);
}

#[test]
fn frames_carry_a_big_endian_length_header() {
    let frame = encode_frame(b"{}").expect("frame");
    assert_eq!(frame, vec![0, 0, 0, 2, b'{', b'}']);
    assert_eq!(&frame[FRAME_HEADER_LENGTH..], b"{}");
    assert_eq!(encode_frame(b""), Err(CodecError::EmptyFrame));
    assert_eq!(encode_frame(&vec![b' '; MAX_FRAME_LENGTH + 1]), Err(CodecError::FrameTooLarge));
    assert_eq!(check_body(&vec![b' '; MAX_FRAME_LENGTH]), Ok(()));
}

#[test]
fn decoder_rejects_oversized_frames_before_reading_the_body() {
    let mut decoder = RequestDecoder::new();
    let header = u32::try_from(MAX_FRAME_LENGTH + 1).expect("bounded constant").to_be_bytes();
    let framed = decoder.push(&header);
    assert_eq!(framed.error, Some(CodecError::FrameTooLarge));
    assert!(framed.bodies.is_empty());
    assert_eq!(decoder.buffered_len(), 0);
}

#[test]
fn decoder_rejects_an_empty_frame_header() {
    let mut decoder = RequestDecoder::new();
    let framed = decoder.push(&[0, 0, 0, 0, 1, 2]);
    assert_eq!(framed.error, Some(CodecError::EmptyFrame));
    assert_eq!(decoder.buffered_len(), 0);
    assert_eq!(decoder.expected_body_length(), None);
}

#[test]
fn oversized_chunk_does_not_bypass_the_declared_frame_length() {
    let mut decoder = RequestDecoder::new();
    let mut bytes = 1_u32.to_be_bytes().to_vec();
    bytes.extend(std::iter::repeat_n(b'{', MAX_FRAME_LENGTH + 1));

    let framed = decoder.push(&bytes);
    // Only the declared single octet forms a body, and it is not JSON.
    assert_eq!(framed.bodies, vec![b"{".to_vec()]);
    assert!(serde_json::from_slice::<serde_json::Value>(&framed.bodies[0]).is_err());
    // The octets after it read as an oversized header and end the read.
    assert_eq!(framed.error, Some(CodecError::FrameTooLarge));
    assert_eq!(decoder.buffered_len(), 0);
    assert_eq!(decoder.expected_body_length(), None);
}

#[test]
fn decoder_holds_a_partial_body_until_it_completes() {
    let mut decoder = RequestDecoder::new();
    let framed = decoder.push(&[0, 0, 0, 3, b'a']);
    assert!(framed.bodies.is_empty());
    assert_eq!(decoder.expected_body_length(), Some(3));
    assert_eq!(decoder.buffered_len(), 1);
    let framed = decoder.push(b"bc");
    assert_eq!(framed.bodies, vec![b"abc".to_vec()]);
    decoder.push(&[0, 0]);
    decoder.clear();
    assert_eq!(decoder.buffered_len(), 0);
}

#[test]
fn decoder_rejects_other_protocol_versions() {
    let body = br#"{"version":2,"request_id":1,"profile_generation":1,"capabilities":[],"command":"hello","parameters":{}}"#;
    let value: serde_json::Value = serde_json::from_slice(body).expect("JSON");
    let version = value["version"].as_u64().expect("version") as u16;
    assert_eq!(check_version(version), Err(CodecError::UnsupportedVersion));
    assert_eq!(check_version(1), Ok(()));
}
