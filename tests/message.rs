use conclave::compression::{compress_content, decompress_content, should_compress};
use conclave::message::{AgentMessage, CompressedAgentMessage, DecodeError};

#[test]
fn test_agent_message_creation() {
    let message = AgentMessage::new("agent-1".to_string(), "Hello, world!".to_string());

    assert_eq!(message.sender_id, "agent-1");
    assert_eq!(message.content, "Hello, world!");
    assert!(message.timestamp > 0);
}

#[test]
fn test_message_serialization_deserialization() {
    let original = AgentMessage::new("test-agent".to_string(), "Test message content".to_string());

    let serialized = original.serialize().expect("Failed to serialize message");
    assert!(!serialized.is_empty());

    let deserialized =
        AgentMessage::deserialize(&serialized).expect("Failed to deserialize message");

    assert_eq!(deserialized.sender_id, original.sender_id);
    assert_eq!(deserialized.timestamp, original.timestamp);
    assert_eq!(deserialized.content, original.content);
}

#[test]
fn test_message_serialization_with_empty_content() {
    let message = AgentMessage::new("agent-2".to_string(), "".to_string());

    let serialized = message.serialize().expect("Failed to serialize empty message");
    let deserialized =
        AgentMessage::deserialize(&serialized).expect("Failed to deserialize empty message");

    assert_eq!(deserialized.sender_id, "agent-2");
    assert_eq!(deserialized.content, "");
}

#[test]
fn test_message_serialization_with_unicode() {
    let message = AgentMessage::new("agent-unicode".to_string(), "Hello ä¸–ç•Œ! ğŸŒ".to_string());

    let serialized = message.serialize().expect("Failed to serialize unicode message");
    let deserialized =
        AgentMessage::deserialize(&serialized).expect("Failed to deserialize unicode message");

    assert_eq!(deserialized.content, "Hello ä¸–ç•Œ! ğŸŒ");
}

#[test]
fn test_invalid_deserialization() {
    let invalid_bytes = vec![0xFF, 0xFF, 0xFF, 0xFF];
    let result = AgentMessage::deserialize(&invalid_bytes);

    assert!(result.is_err());
}

#[test]
fn test_message_with_custom_timestamp() {
    let custom_timestamp = 1640995200; // Jan 1, 2022 00:00:00 UTC
    let message = AgentMessage {
        sender_id: "agent-custom".to_string(),
        timestamp: custom_timestamp,
        content: "Custom timestamp test".to_string(),
    };

    let serialized = message
        .serialize()
        .expect("Failed to serialize custom timestamp message");
    let deserialized = AgentMessage::deserialize(&serialized)
        .expect("Failed to deserialize custom timestamp message");

    assert_eq!(deserialized.timestamp, custom_timestamp);
}

#[test]
fn test_compression_decompression() {
    let original_content = "This is a test message that should be compressed because it's quite long and exceeds the compression threshold for testing purposes. ".repeat(10);

    let compressed = compress_content(&original_content).expect("Failed to compress");
    assert!(!compressed.is_empty());
    assert!(compressed.len() < original_content.len());

    let decompressed = decompress_content(&compressed).expect("Failed to decompress");
    assert_eq!(decompressed, original_content);
}

#[test]
fn test_should_compress() {
    assert!(!should_compress("short", 100));
    assert!(should_compress(
        "this is a longer message that exceeds the threshold",
        50
    ));
}

#[test]
fn test_compressed_agent_message() {
    let original_message = AgentMessage::new("test-agent".to_string(), "Test content".to_string());

    let compressed_msg = original_message
        .to_compressed(50)
        .expect("Failed to create compressed message");
    assert!(!compressed_msg.is_compressed);
    assert_eq!(compressed_msg.original_size, 12);

    let decompressed_msg = compressed_msg
        .to_agent_message()
        .expect("Failed to decompress message");
    assert_eq!(decompressed_msg.sender_id, original_message.sender_id);
    assert_eq!(decompressed_msg.content, original_message.content);
}

#[test]
fn test_uncompressed_agent_message() {
    let original_message = AgentMessage::new("test-agent".to_string(), "Short".to_string());

    let compressed_msg = original_message
        .to_compressed(50)
        .expect("Failed to create compressed message");
    assert!(!compressed_msg.is_compressed);
    assert_eq!(compressed_msg.original_size, 5);

    let decompressed_msg = compressed_msg
        .to_agent_message()
        .expect("Failed to decompress message");
    assert_eq!(decompressed_msg.content, original_message.content);
}
