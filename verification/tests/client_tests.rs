use openclaw_agent::client::{timestamp_or_zero};
use openclaw_agent::client::{
    agent_url, auth_message, handle_event, heartbeat_interval, heartbeat_message, now_ts, Backoff,
    SessionAction, SessionEvent,
};
use openclaw_agent::config::{Config, FileConfig};
use openclaw_agent::protocol::{ClientMessage, ServerMessage};

#[test]
fn backoff_doubles_up_to_the_cap() {
    let mut b = Backoff::new();
    let waits: Vec<u64> = (0..7).map(|_| b.record_failure(20)).collect();
    assert_eq!(waits, vec![1, 2, 4, 8, 16, 20, 20]);
    assert_eq!(b.current(), 20);
    b.record_success();
    assert_eq!(b.current(), 1);
}

#[test]
fn backoff_cap_is_at_least_one_second() {
    let mut b = Backoff::new();
    assert_eq!(b.record_failure(0), 1);
    assert_eq!(b.record_failure(0), 1);
    assert_eq!(b.current(), 1);
}

#[test]
fn backoff_saturates_instead_of_overflowing() {
    let mut b = Backoff::new();
    for _ in 0..70 {
        b.record_failure(u64::MAX);
    }
    assert_eq!(b.current(), u64::MAX);
    assert_eq!(b.record_failure(u64::MAX), u64::MAX);
}

#[test]
fn agent_url_and_heartbeat() {
    assert_eq!(agent_url("127.0.0.1:4433"), "ws://127.0.0.1:4433/agent");
    assert_eq!(heartbeat_interval(1), 3);
    assert_eq!(heartbeat_interval(20), 20);
    assert_eq!(heartbeat_message(5), ClientMessage::Heartbeat { timestamp: 5 });
    assert!(now_ts() > 1_600_000_000);
}

#[test]
fn auth_carries_id_and_token() {
    let c = Config::resolve(FileConfig::defaults(), None).unwrap();
    assert_eq!(
        auth_message(&c),
        ClientMessage::Auth {
            agent_id: "mac-agent-001".to_string(),
            token: Some("default-token".to_string())
        }
    );
}

#[test]
fn session_events() {
    let exec = ServerMessage::Exec { id: "1".into(), command: "ls".into(), args: vec!["-l".into()] };
    match handle_event(SessionEvent::Message(exec)) {
        SessionAction::Execute { id, command, args } => {
            assert_eq!((id.as_str(), command.as_str(), args), ("1", "ls", vec!["-l".to_string()]));
        }
        _ => panic!("expected execute"),
    }
    assert!(matches!(handle_event(SessionEvent::Message(ServerMessage::Ping)), SessionAction::SendHeartbeat));
    let cmd = ServerMessage::Command { id: "cmd-001".into(), command: "  ls   -la /tmp ".into() };
    match handle_event(SessionEvent::Message(cmd)) {
        SessionAction::Execute { id, command, args } => {
            assert_eq!(id, "cmd-001");
            assert_eq!(command, "ls");
            assert_eq!(args, vec!["-la".to_string(), "/tmp".to_string()]);
        }
        _ => panic!("expected execute"),
    }
    let empty = ServerMessage::Command { id: "2".into(), command: " \t".into() };
    match handle_event(SessionEvent::Message(empty)) {
        SessionAction::Reply(m) => assert_eq!(
            m,
            ClientMessage::Response {
                id: "2".into(),
                success: false,
                output: String::new(),
                error: Some("empty command".into())
            }
        ),
        _ => panic!("expected reply"),
    }
    assert!(matches!(handle_event(SessionEvent::Undecodable), SessionAction::Ignore));
    assert!(matches!(handle_event(SessionEvent::OtherFrame), SessionAction::Ignore));
    match handle_event(SessionEvent::Closed) {
        SessionAction::Stop(Err(e)) => assert_eq!(e, "server closed connection"),
        _ => panic!("expected stop"),
    }
    match handle_event(SessionEvent::ReadFailed("reset".into())) {
        SessionAction::Stop(Err(e)) => assert_eq!(e, "read error: reset"),
        _ => panic!("expected stop"),
    }
    assert!(matches!(handle_event(SessionEvent::Ended), SessionAction::Stop(Ok(()))));
}

#[test]
fn timestamp_falls_back_to_zero() {
    assert_eq!(timestamp_or_zero(Some(12)), 12);
    assert_eq!(timestamp_or_zero(None), 0);
}

#[test]
fn outcomes_give_the_documented_waits() {
    let mut b = Backoff::new();
    let outcomes = [false, false, true, false, false, false, false];
    let waits: Vec<u64> = outcomes.iter().map(|ok| b.record_outcome(*ok, 5)).collect();
    assert_eq!(waits, vec![1, 2, 0, 1, 2, 4, 5]);
}
