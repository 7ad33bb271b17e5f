use conclave::message::{AgentMessage, DecodeError, WireError};
use conclave::message_handler::MessageHandlerError;
use conclave::network::NetworkError;
use conclave::processor::{
    exit_status, greeting, intake_continues, intake_step, next_state, reply_step, IntakeStep,
    NodeEvent, NodeState, ReplyStep, RetryPolicy,
};

#[test]
fn backoff_doubles_up_to_the_cap() {
    let p = RetryPolicy::default();
    assert_eq!(p.schedule_ms(), vec![100, 200, 400, 800, 1600]);
    let capped = RetryPolicy { initial_delay_ms: 3000, max_delay_ms: 10000, max_retries: 4 };
    assert_eq!(capped.schedule_ms(), vec![3000, 6000, 10000, 10000]);
    assert_eq!(capped.delay_ms(60), 10000);
    let huge = RetryPolicy { initial_delay_ms: u64::MAX, max_delay_ms: u64::MAX, max_retries: 2 };
    assert_eq!(huge.schedule_ms(), vec![u64::MAX, u64::MAX]);
}

#[test]
fn reply_steps() {
    let p = RetryPolicy::default();
    assert_eq!(reply_step(&p, 0, Ok("hi".to_string())), ReplyStep::Reply("hi".to_string()));
    assert_eq!(reply_step(&p, 0, Err("down".to_string())), ReplyStep::RetryAfter(100));
    assert_eq!(reply_step(&p, 3, Err("down".to_string())), ReplyStep::RetryAfter(800));
    assert_eq!(reply_step(&p, 5, Err("down".to_string())), ReplyStep::Reply("down".to_string()));
}

#[test]
fn greeting_names_the_node() {
    assert_eq!(greeting("agent-1"), "Hi, I am agent-1.");
}

#[test]
fn intake_steps() {
    let m = AgentMessage { sender_id: "b".to_string(), timestamp: 2, content: "c".to_string() };
    match intake_step(Ok(m.clone())) {
        IntakeStep::Forward(x) => assert_eq!(x, m),
        _ => panic!("expected forward"),
    }
    let bad = NetworkError::DeserializationError(WireError::Decode(DecodeError::Truncated));
    assert!(matches!(intake_step(Err(bad)), IntakeStep::Skip));
    match intake_step(Err(NetworkError::ReceiveError("boom".to_string()))) {
        IntakeStep::Stop(t) => assert_eq!(t, "UDP intake task failed: Failed to receive message: boom"),
        _ => panic!("expected stop"),
    }
    assert!(intake_continues(&Ok(())));
    assert!(intake_continues(&Err(MessageHandlerError::ChannelSendError("full".to_string()))));
    assert!(!intake_continues(&Err(MessageHandlerError::ChannelClosed)));
}

#[test]
fn node_lifecycle() {
    let s = next_state(NodeState::Starting, NodeEvent::LoopsStarted);
    assert_eq!(s, NodeState::Running);
    let s = next_state(s, NodeEvent::LoopFailed);
    assert_eq!(s, NodeState::Stopping);
    assert_eq!(next_state(s, NodeEvent::LoopsStarted), NodeState::Stopping);
}

#[test]
fn exit_status_needs_both_loops_failed() {
    let ok: Result<(), String> = Ok(());
    let bad: Result<(), String> = Err("x".to_string());
    assert_eq!(exit_status(&ok, &ok), 0);
    assert_eq!(exit_status(&bad, &ok), 0);
    assert_eq!(exit_status(&ok, &bad), 0);
    assert_eq!(exit_status(&bad, &bad), 1);
}
