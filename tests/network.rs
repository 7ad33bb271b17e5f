use conclave::message::{AgentMessage, DecodeError, WireError};
use conclave::network::{
    incoming_message, outgoing_datagram, validate_group, IpAddress, MulticastGroup, NetworkConfig,
    NetworkError, SocketAddress,
};

#[test]
fn test_network_config_default() {
    let config = NetworkConfig::default();
    assert!(config.multicast_address.is_multicast());
    assert_eq!(config.multicast_address.port(), 8080);
    assert_eq!(config.buffer_size, 65536);
    assert_eq!(config.compression_threshold, 1024);
}

#[test]
fn test_network_manager_creation_valid_multicast() {
    let config = NetworkConfig {
        multicast_address: SocketAddress::v4(239, 255, 255, 250, 8080),
        interface: None,
        buffer_size: 1024,
        compression_threshold: 1024,
    };

    let result = validate_group(&config.multicast_address);
    assert!(result.is_ok());
}

#[test]
fn test_network_manager_creation_invalid_multicast() {
    let config = NetworkConfig {
        multicast_address: SocketAddress::v4(192, 168, 1, 1, 8080),
        interface: None,
        buffer_size: 1024,
        compression_threshold: 1024,
    };

    let result = validate_group(&config.multicast_address);
    assert!(result.is_err());

    if let Err(NetworkError::ConfigError(msg)) = result {
        assert!(msg.contains("is not a valid multicast address"));
    } else {
        panic!("Expected ConfigError");
    }
}

#[test]
fn test_network_error_display() {
    let error = NetworkError::ConfigError("Test error".to_string());
    assert_eq!(
        error.to_string(),
        "Invalid network configuration: Test error"
    );

    let error = NetworkError::SendError("Send failed".to_string());
    assert_eq!(error.to_string(), "Failed to send message: Send failed");
}

#[test]
fn group_validation_details() {
    assert_eq!(
        validate_group(&SocketAddress::v4(239, 255, 255, 250, 8080)),
        Ok(MulticastGroup { a: 239, b: 255, c: 255, d: 250, port: 8080 })
    );
    assert_eq!(
        validate_group(&SocketAddress::v4(192, 168, 1, 1, 8080)),
        Err(NetworkError::ConfigError(
            "Address 192.168.1.1 is not a valid multicast address".to_string()
        ))
    );
    assert!(validate_group(&SocketAddress::v4(224, 0, 0, 1, 1)).is_ok());
    assert!(validate_group(&SocketAddress::v4(240, 0, 0, 1, 1)).is_err());
    let v6 = SocketAddress { ip: IpAddress::V6(0xff02, 0, 0, 0, 0, 0, 0, 1), port: 9 };
    assert_eq!(
        validate_group(&v6),
        Err(NetworkError::Unsupported("IPv6 multicast not currently supported".to_string()))
    );
    let v6_plain = SocketAddress { ip: IpAddress::V6(0x2001, 0xdb8, 0, 0, 0, 0, 0, 0x1f), port: 9 };
    assert_eq!(
        validate_group(&v6_plain),
        Err(NetworkError::ConfigError(
            "Address 2001:db8:0:0:0:0:0:1f is not a valid multicast address".to_string()
        ))
    );
}

fn msg(sender: &str, content: &str) -> AgentMessage {
    AgentMessage { sender_id: sender.to_string(), timestamp: 1_700_000_000, content: content.to_string() }
}

#[test]
fn datagram_from_a_reads_back_at_b() {
    let sent = msg("A", "hello");
    let datagram = outgoing_datagram(&sent, 1024).unwrap();
    let received = incoming_message(&datagram).unwrap();
    assert_eq!(received, sent);
}

#[test]
fn datagram_threshold_boundary() {
    let at = msg("A", &"q".repeat(100));
    let d = outgoing_datagram(&at, 100).unwrap();
    assert!(String::from_utf8_lossy(&d).contains(&"q".repeat(100)));
    assert_eq!(incoming_message(&d).unwrap(), at);
    let over = msg("A", &"q".repeat(101));
    let d = outgoing_datagram(&over, 100).unwrap();
    assert!(!String::from_utf8_lossy(&d).contains(&"q".repeat(101)));
    assert_eq!(incoming_message(&d).unwrap(), over);
}

#[test]
fn malformed_datagram_is_a_decode_error() {
    assert_eq!(
        incoming_message(&[0xFF, 0xFF, 0xFF, 0xFF]),
        Err(NetworkError::DeserializationError(WireError::Decode(DecodeError::InvalidVarint)))
    );
}

#[test]
fn raw_text_that_looks_compressed_is_misread() {
    let sent = msg("A", "H4 is how this starts");
    let d = outgoing_datagram(&sent, 1024).unwrap();
    assert_eq!(incoming_message(&d), Err(NetworkError::DeserializationError(WireError::Base64)));
}

#[test]
fn error_reports() {
    assert_eq!(
        NetworkError::DeserializationError(WireError::Decode(DecodeError::Truncated)).to_string(),
        "Message deserialization error: buffer underflow"
    );
    assert_eq!(
        NetworkError::Unsupported("x".to_string()).to_string(),
        "Unsupported network configuration: x"
    );
}
