use base64::Engine;
use conclave::compression::{compress_content, decompress_content, CompressionError};
use conclave::message::{
    timestamp_from_clock, AgentMessage, CompressedAgentMessage, DecodeError, WireError,
};
use conclave::protobuf::{read_varint_at, write_varint};

fn msg(sender: &str, timestamp: i64, content: &str) -> AgentMessage {
    AgentMessage { sender_id: sender.to_string(), timestamp, content: content.to_string() }
}

#[test]
fn varint_bytes_are_little_endian_groups() {
    let mut out = Vec::new();
    write_varint(&mut out, 300);
    assert_eq!(out, vec![0xAC, 0x02]);
    assert_eq!(read_varint_at(&out, 0, 0), Some((300, 2)));
    let mut max = Vec::new();
    write_varint(&mut max, u64::MAX);
    assert_eq!(max.len(), 10);
    assert_eq!(read_varint_at(&max, 0, 0), Some((u64::MAX, 10)));
}

#[test]
fn eleventh_varint_byte_is_rejected() {
    let bytes = vec![0xFF, 0xFF, 0xFF, 0xFF, 0xFF, 0xFF, 0xFF, 0xFF, 0xFF, 0x02];
    assert_eq!(read_varint_at(&bytes, 0, 0), None);
}

#[test]
fn encoding_matches_protobuf_layout() {
    let m = msg("ab", 150, "hi");
    let bytes = m.serialize().unwrap();
    assert_eq!(bytes, vec![0x0A, 2, b'a', b'b', 0x10, 0x96, 0x01, 0x1A, 2, b'h', b'i']);
}

#[test]
fn encoding_agrees_with_prost() {
    let m = msg("node-7", -42, "content with ünïcødé 🌍");
    let mut expected = Vec::new();
    prost::encoding::string::encode(1, &m.sender_id, &mut expected);
    prost::encoding::int64::encode(2, &m.timestamp, &mut expected);
    prost::encoding::string::encode(3, &m.content, &mut expected);
    assert_eq!(m.serialize().unwrap(), expected);
}

#[test]
fn defaults_are_left_out() {
    assert_eq!(msg("", 0, "").serialize().unwrap(), Vec::<u8>::new());
    let back = AgentMessage::deserialize(&[]).unwrap();
    assert_eq!(back.sender_id, "");
    assert_eq!(back.timestamp, 0);
    assert_eq!(back.content, "");
}

#[test]
fn negative_timestamp_round_trips() {
    let m = msg("a", i64::MIN, "x");
    let back = AgentMessage::deserialize(&m.serialize().unwrap()).unwrap();
    assert_eq!(back.timestamp, i64::MIN);
    assert_eq!(back.content, "x");
}

#[test]
fn unknown_fields_are_skipped() {
    let bytes = vec![0x20, 0x05, 0x0A, 1, b'z', 0x2D, 1, 2, 3, 4];
    let back = AgentMessage::deserialize(&bytes).unwrap();
    assert_eq!(back.sender_id, "z");
}

#[test]
fn later_field_replaces_earlier() {
    let bytes = vec![0x0A, 1, b'a', 0x0A, 1, b'b'];
    assert_eq!(AgentMessage::deserialize(&bytes).unwrap().sender_id, "b");
}

#[test]
fn decode_error_kinds() {
    let err = |b: &[u8]| AgentMessage::deserialize(b).err();
    assert_eq!(err(&[0xFF, 0xFF, 0xFF, 0xFF]), Some(DecodeError::InvalidVarint));
    assert_eq!(err(&[0x00]), Some(DecodeError::InvalidKey));
    assert_eq!(err(&[0x0E]), Some(DecodeError::InvalidWireType));
    assert_eq!(err(&[0x08, 0x01]), Some(DecodeError::WrongWireType));
    assert_eq!(err(&[0x0A, 0x05, b'a']), Some(DecodeError::Truncated));
    assert_eq!(err(&[0x0A, 0x01, 0xFF]), Some(DecodeError::InvalidUtf8));
    assert_eq!(err(&[0x0B]), Some(DecodeError::Group));
    assert_eq!(err(&[0x29, 1, 2]), Some(DecodeError::Truncated));
}

#[test]
fn compression_round_trips_empty_input() {
    let compressed = compress_content("").unwrap();
    assert_eq!(&compressed[..3], &[0x1f, 0x8b, 0x08]);
    assert_eq!(decompress_content(&compressed).unwrap(), "");
}

#[test]
fn decompressing_garbage_fails() {
    assert_eq!(decompress_content(b"not gzip"), Err(CompressionError::Inflate));
}

#[test]
fn envelope_above_threshold_is_compressed() {
    let content = "abcdefghij".repeat(20);
    let m = msg("s", 7, &content);
    let env = m.to_compressed(100).unwrap();
    assert!(env.is_compressed);
    assert_eq!(env.original_size, 200);
    assert_ne!(env.compressed_data, content.as_bytes().to_vec());
    let back = env.to_agent_message().unwrap();
    assert_eq!(back.content, content);
    assert_eq!(back.sender_id, "s");
    assert_eq!(back.timestamp, 7);
}

#[test]
fn envelope_threshold_boundary() {
    let at = msg("s", 1, "0123456789");
    let env = at.to_compressed(10).unwrap();
    assert!(!env.is_compressed);
    assert_eq!(env.compressed_data, b"0123456789".to_vec());
    let over = msg("s", 1, "0123456789a");
    let env = over.to_compressed(10).unwrap();
    assert!(env.is_compressed);
    assert_eq!(env.to_agent_message().unwrap().content, "0123456789a");
}

#[test]
fn compressed_envelope_travels_as_base64() {
    let m = msg("s", 3, &"z".repeat(64));
    let env = m.to_compressed(8).unwrap();
    let wire = env.serialize().unwrap();
    let record = AgentMessage::deserialize(&wire).unwrap();
    assert!(record.content.starts_with("H4sI"));
    let env2 = CompressedAgentMessage::deserialize(&wire, true, record.content.len()).unwrap();
    assert_eq!(env2.compressed_data, env.compressed_data);
    assert_eq!(env2.to_agent_message().unwrap().content, m.content);
}

#[test]
fn raw_envelope_travels_as_text() {
    let env = msg("s", 3, "plain").to_compressed(100).unwrap();
    let wire = env.serialize().unwrap();
    assert_eq!(AgentMessage::deserialize(&wire).unwrap().content, "plain");
    let env2 = CompressedAgentMessage::deserialize(&wire, false, 5).unwrap();
    assert_eq!(env2.compressed_data, b"plain".to_vec());
}

#[test]
fn envelope_errors() {
    let wire = msg("s", 1, "not base64!").serialize().unwrap();
    assert_eq!(
        CompressedAgentMessage::deserialize(&wire, true, 0).err(),
        Some(WireError::Base64)
    );
    assert_eq!(
        CompressedAgentMessage::deserialize(&[0x00], false, 0).err(),
        Some(WireError::Decode(DecodeError::InvalidKey))
    );
    let bad = CompressedAgentMessage {
        sender_id: "s".to_string(),
        timestamp: 0,
        compressed_data: vec![0xFF],
        is_compressed: false,
        original_size: 1,
    };
    assert_eq!(bad.to_agent_message().err(), Some(CompressionError::InvalidUtf8));
    let garbage = CompressedAgentMessage { is_compressed: true, ..bad };
    assert_eq!(garbage.to_agent_message().err(), Some(CompressionError::Inflate));
}

#[test]
fn compressed_content_is_standard_base64() {
    let m = msg("s", 3, &"hello world~ ".repeat(20));
    let env = m.to_compressed(16).unwrap();
    let record = AgentMessage::deserialize(&env.serialize().unwrap()).unwrap();
    let expected = base64::engine::general_purpose::STANDARD.encode(&env.compressed_data);
    assert_eq!(record.content, expected);
    assert!(record.content.len() % 4 == 0);
}

#[test]
fn clock_readings_become_timestamps() {
    assert_eq!(timestamp_from_clock(Some(1_640_995_200)), 1_640_995_200);
    assert_eq!(timestamp_from_clock(Some(u64::MAX)), i64::MAX);
    assert_eq!(timestamp_from_clock(Some(i64::MAX as u64)), i64::MAX);
    assert_eq!(timestamp_from_clock(None), 0);
}

#[test]
fn cut_off_encoding_is_rejected() {
    let full = msg("sender", 5, "some content").serialize().unwrap();
    for cut in 1..full.len() {
        let r = AgentMessage::deserialize(&full[..cut]);
        if let Ok(m) = r {
            // a cut at a field boundary leaves a shorter, well-formed record
            assert!(m.content.is_empty() || m.content == "some content");
        }
    }
    assert_eq!(AgentMessage::deserialize(&full[..3]).err(), Some(DecodeError::Truncated));
}
