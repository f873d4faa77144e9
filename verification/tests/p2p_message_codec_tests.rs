use nio_blockchain::p2p_message_codec::{HEADER_SIZE, MessageFrame, decode_frame, encode_frame};
use nio_blockchain::p2p_protocol::{MAX_MESSAGE_SIZE, MessageType, P2P_PROTOCOL_VERSION};

fn ping_frame() -> MessageFrame {
    MessageFrame::new(MessageType::Ping, Vec::new()).expect("ping frame")
}

fn transaction_frame() -> MessageFrame {
    MessageFrame::new(MessageType::Transaction, vec![1, 2, 3, 4]).expect("transaction frame")
}

#[test]
fn ping_frame_roundtrip() {
    let frame = ping_frame();

    let encoded = encode_frame(&frame).expect("encode");

    let decoded = decode_frame(&encoded).expect("decode");

    assert_eq!(decoded, frame);
}

#[test]
fn transaction_frame_roundtrip() {
    let frame = transaction_frame();

    let encoded = encode_frame(&frame).expect("encode");

    let decoded = decode_frame(&encoded).expect("decode");

    assert_eq!(decoded, frame);
}

#[test]
fn p2p_message_codec_invalid_magic_is_rejected() {
    let frame = ping_frame();

    let mut encoded = encode_frame(&frame).expect("encode");

    encoded[0] = b'X';

    assert!(decode_frame(&encoded).is_err());
}

#[test]
fn p2p_message_codec_invalid_version_is_rejected() {
    let frame = ping_frame();

    let mut encoded = encode_frame(&frame).expect("encode");

    encoded[4..8].copy_from_slice(&(P2P_PROTOCOL_VERSION + 1).to_be_bytes());

    assert!(decode_frame(&encoded).is_err());
}

#[test]
fn p2p_message_codec_unknown_message_type_is_rejected() {
    let frame = ping_frame();

    let mut encoded = encode_frame(&frame).expect("encode");

    encoded[8] = 255;

    assert!(decode_frame(&encoded).is_err());
}

#[test]
fn oversized_payload_is_rejected() {
    let payload = vec![0u8; MAX_MESSAGE_SIZE + 1];

    assert!(MessageFrame::new(MessageType::Transaction, payload,).is_err());
}

#[test]
fn p2p_message_codec_checksum_tampering_is_rejected() {
    let frame = transaction_frame();

    let mut encoded = encode_frame(&frame).expect("encode");

    let last = encoded.len() - 1;

    encoded[last] ^= 0xFF;

    assert!(decode_frame(&encoded).is_err());
}

#[test]
fn p2p_message_codec_payload_tampering_is_rejected() {
    let frame = transaction_frame();

    let mut encoded = encode_frame(&frame).expect("encode");

    encoded[HEADER_SIZE] ^= 0xFF;

    assert!(decode_frame(&encoded).is_err());
}

#[test]
fn p2p_message_codec_truncated_frame_is_rejected() {
    let frame = ping_frame();

    let encoded = encode_frame(&frame).expect("encode");

    let truncated = &encoded[..encoded.len() - 1];

    assert!(decode_frame(truncated).is_err());
}

#[test]
fn wrong_payload_length_is_rejected() {
    let frame = transaction_frame();

    let mut encoded = encode_frame(&frame).expect("encode");

    let wrong_length = 999u32.to_be_bytes();

    encoded[9..13].copy_from_slice(&wrong_length);

    assert!(decode_frame(&encoded).is_err());
}

#[test]
fn empty_ping_is_valid() {
    let frame = ping_frame();

    assert_eq!(frame.message_type, MessageType::Ping);

    assert!(frame.payload.is_empty());
}

#[test]
fn frame_header_announces_body_length() {
    let frame = MessageFrame::new(MessageType::Transaction, vec![7u8; 10]).expect("frame");
    let encoded = encode_frame(&frame).expect("encoded");
    let mut header = [0u8; 13];
    header.copy_from_slice(&encoded[..13]);
    assert_eq!(nio_blockchain::p2p_message_codec::frame_body_length(header), Ok(10 + 32));
    assert_eq!(encoded.len(), 13 + 10 + 32);
}

#[test]
fn frame_header_rejects_bad_fields() {
    let frame = MessageFrame::new(MessageType::Ping, Vec::new()).expect("frame");
    let encoded = encode_frame(&frame).expect("encoded");
    let mut header = [0u8; 13];
    header.copy_from_slice(&encoded[..13]);
    assert_eq!(nio_blockchain::p2p_message_codec::frame_body_length(header), Ok(32));

    let mut bad_magic = header;
    bad_magic[0] = b'X';
    assert!(nio_blockchain::p2p_message_codec::frame_body_length(bad_magic).is_err());

    let mut bad_version = header;
    bad_version[7] = 9;
    assert!(nio_blockchain::p2p_message_codec::frame_body_length(bad_version).is_err());

    let mut bad_type = header;
    bad_type[8] = 0;
    assert!(nio_blockchain::p2p_message_codec::frame_body_length(bad_type).is_err());

    let mut too_long = header;
    too_long[9] = 0xff;
    assert!(nio_blockchain::p2p_message_codec::frame_body_length(too_long).is_err());
}
