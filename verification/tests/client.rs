use relay::Action;
use relay::Client;
use relay::Frame;
use relay::Phase;

fn open_client(now: u64) -> Client {
    let mut c = Client::new(now);
    assert_eq!(c.phase, Phase::Connecting);
    c.on_open();
    assert_eq!(c.phase, Phase::Open);
    c
}

#[test]
fn ping_refreshes_heartbeat_and_is_acknowledged() {
    let mut c = open_client(5);
    let action = c.on_frame(Frame::Ping(vec![1, 2]), 10);
    match action {
        Action::Pong(p) => assert_eq!(p, vec![1, 2]),
        _ => panic!("expected a pong"),
    }
    assert_eq!(c.hb, 10);
    assert_eq!(c.phase, Phase::Open);
}

#[test]
fn pong_refreshes_heartbeat_silently() {
    let mut c = open_client(5);
    let action = c.on_frame(Frame::Pong, 42);
    assert!(matches!(action, Action::Ignore));
    assert_eq!(c.hb, 42);
}

#[test]
fn binary_frames_echo_back_verbatim() {
    let mut c = open_client(5);
    let action = c.on_frame(Frame::Binary(vec![9, 8, 7]), 10);
    match action {
        Action::EchoBinary(b) => assert_eq!(b, vec![9, 8, 7]),
        _ => panic!("expected a binary echo"),
    }
    assert_eq!(c.hb, 5);
}

#[test]
fn activation_envelope_becomes_activate_request_and_records_id() {
    let mut c = open_client(0);
    let text = String::from("{\"ActivationMessage\":[\"alice\",\"secret\"]}");
    let action = c.on_frame(Frame::Text(text), 0);
    match action {
        Action::Activate { identifier, credential } => {
            assert_eq!(identifier, "alice");
            assert_eq!(credential, "secret");
        }
        _ => panic!("expected an activate request"),
    }
    assert_eq!(c.id, "alice");
    assert_eq!(c.phase, Phase::Open);
}

#[test]
fn forward_envelope_becomes_route_request() {
    let mut c = open_client(0);
    let text = String::from("{\"SendMail\":{\"next\":\"alice\",\"mail\":\"hi\"}}");
    let action = c.on_frame(Frame::Text(text), 0);
    match action {
        Action::Route { next, mail } => {
            assert_eq!(next, "alice");
            assert_eq!(mail, "hi");
        }
        _ => panic!("expected a route request"),
    }
}

#[test]
fn empty_envelope_refreshes_heartbeat() {
    let mut c = open_client(3);
    let action = c.on_frame(Frame::Text(String::from("\"Empty\"")), 99);
    assert!(matches!(action, Action::Ignore));
    assert_eq!(c.hb, 99);
}

#[test]
fn malformed_envelope_is_dropped_and_connection_stays_open() {
    let mut c = open_client(3);
    let action = c.on_frame(Frame::Text(String::from("not json at all")), 50);
    assert!(matches!(action, Action::Malformed));
    assert_eq!(c.phase, Phase::Open);
    assert_eq!(c.hb, 3);
    assert_eq!(c.id, "");
}

#[test]
fn close_notifies_router_with_recorded_id() {
    let mut c = open_client(0);
    c.on_frame(Frame::Text(String::from("{\"ActivationMessage\":[\"alice\",\"pw\"]}")), 0);
    let action = c.on_frame(Frame::Close, 1);
    match action {
        Action::Disconnect { id } => assert_eq!(id, "alice"),
        _ => panic!("expected a disconnect"),
    }
    assert_eq!(c.phase, Phase::Closing);
    c.on_closed();
    assert_eq!(c.phase, Phase::Closed);
}

#[test]
fn idle_timeout_fires_only_after_silence() {
    let c = open_client(100);
    assert!(!c.idle_expired(100, 50));
    assert!(!c.idle_expired(149, 50));
    assert!(c.idle_expired(150, 50));
    assert!(c.idle_expired(160, 50));
    assert!(!c.idle_expired(10, 50));
}
