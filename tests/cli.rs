use conclave::cli::{validate_settings, LLMBackend, Settings};
use conclave::network::SocketAddress;

fn settings<'a>(agent_id: &'a str, address: SocketAddress) -> Settings<'a> {
    Settings {
        agent_id,
        multicast_address: address,
        timeout_seconds: 30,
        max_retries: 3,
        model: "gpt-3.5-turbo",
        processing_delay_ms: 5000,
    }
}

#[test]
fn test_agent_args_validation_valid() {
    let args = settings("test-agent", SocketAddress::v4(239, 255, 255, 250, 8080));
    assert!(validate_settings(&args).is_ok());
}

#[test]
fn test_agent_args_validation_empty_agent_id() {
    let args = settings("", SocketAddress::v4(239, 255, 255, 250, 8080));
    assert!(validate_settings(&args).is_err());
    assert_eq!(validate_settings(&args).unwrap_err(), "Agent ID cannot be empty");
}

#[test]
fn test_agent_args_validation_invalid_agent_id_characters() {
    let args = settings("invalid@agent", SocketAddress::v4(239, 255, 255, 250, 8080));
    assert!(validate_settings(&args).is_err());
    assert_eq!(
        validate_settings(&args).unwrap_err(),
        "Agent ID can only contain alphanumeric characters, hyphens, and underscores"
    );
}

#[test]
fn test_agent_args_validation_non_multicast_address() {
    let args = settings("test-agent", SocketAddress::v4(192, 168, 1, 1, 8080));
    assert!(validate_settings(&args).is_err());
    assert!(validate_settings(&args)
        .unwrap_err()
        .contains("is not a valid multicast address"));
}

#[test]
fn settings_bounds() {
    let ok = SocketAddress::v4(239, 1, 2, 3, 9);
    assert_eq!(validate_settings(&settings("  \t", ok)).unwrap_err(), "Agent ID cannot be empty");
    assert!(validate_settings(&settings("agent_ü-1", ok)).is_ok());
    let mut s = settings("a", ok);
    s.timeout_seconds = 0;
    assert_eq!(validate_settings(&s).unwrap_err(), "Timeout must be between 1 and 300 seconds");
    s.timeout_seconds = 300;
    assert!(validate_settings(&s).is_ok());
    s.max_retries = 11;
    assert_eq!(validate_settings(&s).unwrap_err(), "Max retries cannot exceed 10");
    s.max_retries = 10;
    s.model = " ";
    assert_eq!(validate_settings(&s).unwrap_err(), "Model name cannot be empty");
    s.model = "m";
    s.processing_delay_ms = 60001;
    assert_eq!(validate_settings(&s).unwrap_err(), "Processing delay cannot exceed 60 seconds");
}

#[test]
fn backend_names() {
    assert_eq!(LLMBackend::OpenAI.to_string(), "openai");
    assert_eq!(LLMBackend::OpenRouter.as_str(), "openrouter");
    assert_eq!(LLMBackend::Local.as_str(), "local");
}
