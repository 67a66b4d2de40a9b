use amq_engine::status::{heartbeat_timeout_millis, ConnectionState, ConnectionStatus, Error};

#[test]
fn status_advances_monotonically() {
    let mut s = ConnectionStatus::new();
    assert_eq!(s.state, ConnectionState::Initial);
    assert!(s.advance(ConnectionState::Connecting));
    assert!(s.advance(ConnectionState::Connected));
    assert!(s.connected());
    // A step backward is refused and changes nothing.
    assert!(!s.advance(ConnectionState::Connecting));
    assert_eq!(s.state, ConnectionState::Connected);
    assert!(s.advance(ConnectionState::Closing));
    assert!(s.advance(ConnectionState::Closed));
    assert!(s.closed());
    assert!(!s.advance(ConnectionState::Connected));
    assert_eq!(s.state, ConnectionState::Closed);
}

#[test]
fn status_error_is_terminal_and_keeps_cause() {
    let mut s = ConnectionStatus::new();
    s.advance(ConnectionState::Connecting);
    s.set_error(Error::IoError);
    assert!(s.errored());
    assert_eq!(s.cause, Some(Error::IoError));
    assert!(!s.advance(ConnectionState::Closed));
    assert_eq!(s.state, ConnectionState::Error);
}

#[test]
fn status_flow_control_flag() {
    let mut s = ConnectionStatus::new();
    assert!(!s.blocked());
    s.set_blocked(true);
    assert!(s.blocked());
    s.set_blocked(false);
    assert!(!s.blocked());
}

#[test]
fn heartbeat_interval_is_half_the_period() {
    assert_eq!(heartbeat_timeout_millis(0), 0);
    assert_eq!(heartbeat_timeout_millis(60), 30_000);
    assert_eq!(heartbeat_timeout_millis(1), 500);
}
