use sneedchat::client::{ChatClient, Frame, FrameAction, SessionState, Tick, CLIENT_TIMEOUT_MS};
use sneedchat::message::{LivestreamUpdate, Message};

#[test]
fn registration_activates() {
    let mut c = ChatClient::new(1000);
    assert_eq!(c.state, SessionState::Connecting);
    assert!(c.on_registered(Some(7)));
    assert_eq!(c.state, SessionState::Active);
    assert_eq!(c.id, 7);
    assert!(!c.on_registered(Some(8)));
    assert_eq!(c.id, 7);
}

#[test]
fn failed_registration_closes() {
    let mut c = ChatClient::new(0);
    assert!(!c.on_registered(None));
    assert_eq!(c.state, SessionState::Closed);
    assert!(c.stopping().is_none());
}

#[test]
fn silent_session_times_out_once() {
    let mut c = ChatClient::new(1000);
    c.on_registered(Some(7));
    assert!(matches!(c.heartbeat(1000 + CLIENT_TIMEOUT_MS), Tick::Ping));
    match c.heartbeat(1001 + CLIENT_TIMEOUT_MS) {
        Tick::TimedOut(Some(d)) => assert_eq!(d.id, 7),
        _ => panic!("expected a timeout with a notice"),
    }
    assert_eq!(c.state, SessionState::Closing);
    assert!(matches!(c.heartbeat(99_999), Tick::Idle));
    assert!(c.stopping().is_none());
    assert_eq!(c.state, SessionState::Closed);
}

#[test]
fn pings_keep_the_session_alive() {
    let mut c = ChatClient::new(0);
    c.on_registered(Some(1));
    match c.handle(Frame::Ping(vec![1, 2]), 4000) {
        FrameAction::Pong(p) => assert_eq!(p, vec![1, 2]),
        _ => panic!("expected a pong"),
    }
    assert_eq!(c.last_heartbeat_at, 4000);
    assert!(matches!(c.handle(Frame::Pong, 8000), FrameAction::Ignore));
    assert!(matches!(c.heartbeat(12_000), Tick::Ping));
}

#[test]
fn stopping_notifies_once() {
    let mut c = ChatClient::new(0);
    c.on_registered(Some(3));
    assert_eq!(c.stopping().map(|d| d.id), Some(3));
    assert!(c.stopping().is_none());
}

#[test]
fn updates_are_forwarded() {
    let mut c = ChatClient::new(0);
    c.on_registered(Some(3));
    let mut m = Message::placeholder(4, 10);
    m.message = "hi".to_string();
    let update = LivestreamUpdate {
        platform: "Rumble".to_string(),
        channel: None,
        messages: Some(vec![m]),
        viewers: Some(12),
    };
    match c.handle(Frame::Update(update), 5) {
        FrameAction::Forward { viewers, messages } => {
            let v = viewers.expect("a count");
            assert_eq!(v.platform, "Rumble");
            assert_eq!(v.viewers, 12);
            assert_eq!(messages.len(), 1);
            assert_eq!(messages[0].message, "hi");
        }
        _ => panic!("expected forwarding"),
    }
    let empty = LivestreamUpdate { platform: "Rumble".to_string(), channel: None, messages: None, viewers: None };
    match c.handle(Frame::Update(empty), 6) {
        FrameAction::Forward { viewers, messages } => {
            assert!(viewers.is_none());
            assert!(messages.is_empty());
        }
        _ => panic!("expected forwarding"),
    }
    assert_eq!(c.last_heartbeat_at, 0);
}

#[test]
fn close_and_errors_stop() {
    let mut c = ChatClient::new(0);
    c.on_registered(Some(3));
    assert!(matches!(c.handle(Frame::Malformed, 1), FrameAction::Ignore));
    assert!(matches!(c.handle(Frame::Binary, 1), FrameAction::Ignore));
    assert!(matches!(c.handle(Frame::Nop, 1), FrameAction::Ignore));
    assert_eq!(c.state, SessionState::Active);
    assert!(matches!(c.handle(Frame::Close, 1), FrameAction::Close));
    assert_eq!(c.state, SessionState::Closing);
    assert!(c.registered);
    assert_eq!(c.stopping().map(|d| d.id), Some(3));
    assert!(c.stopping().is_none());
    let mut d = ChatClient::new(0);
    d.on_registered(Some(4));
    assert!(matches!(d.handle(Frame::Error, 1), FrameAction::Stop));
    assert_eq!(d.stopping().map(|x| x.id), Some(4));
    let mut e = ChatClient::new(0);
    assert!(matches!(e.handle(Frame::Continuation, 1), FrameAction::Stop));
    assert!(e.stopping().is_none());
    let mut f = ChatClient::new(0);
    f.on_registered(Some(5));
    assert!(matches!(f.handle(Frame::Continuation, 1), FrameAction::Stop));
    assert_eq!(f.stopping().map(|x| x.id), Some(5));
}
