use netmon::handshake::{
    default_config, handshake_step, initial_state, next_action, supervisor_after_failure,
    supervisor_should_retry, HandshakeAction, HandshakeEvent, HandshakeState,
};

#[test]
fn no_server_after_publish_budget() {
    let cfg = default_config();
    let mut st = initial_state();
    for k in 0..10 {
        assert!(!matches!(st, HandshakeState::FailedNoServer), "failed too early at {}", k);
        st = handshake_step(&cfg, st, HandshakeEvent::PublishSeen { subscribers: 0 });
    }
    assert_eq!(st, HandshakeState::FailedNoServer);
    assert_eq!(next_action(&st), HandshakeAction::ReportNoServer);
}

#[test]
fn auth_timeout_after_auth_budget_and_never_listens() {
    let cfg = default_config();
    let mut st = HandshakeState::Authenticating { attempts: 0 };
    for _ in 0..10 {
        assert_ne!(next_action(&st), HandshakeAction::Listen);
        st = handshake_step(&cfg, st, HandshakeEvent::AuthChecked { granted: false });
    }
    assert_eq!(st, HandshakeState::FailedAuthTimeout);
    assert_eq!(next_action(&st), HandshakeAction::ReportAuthTimeout);
}

#[test]
fn successful_session_reaches_listening() {
    let cfg = default_config();
    let mut st = initial_state();
    assert_eq!(next_action(&st), HandshakeAction::PublishConnect);
    // two publishes that nobody saw, then one that a handler saw
    st = handshake_step(&cfg, st, HandshakeEvent::PublishSeen { subscribers: 0 });
    st = handshake_step(&cfg, st, HandshakeEvent::PublishSeen { subscribers: 0 });
    st = handshake_step(&cfg, st, HandshakeEvent::PublishSeen { subscribers: 1 });
    assert_eq!(st, HandshakeState::Authenticating { attempts: 0 });
    assert_eq!(next_action(&st), HandshakeAction::TryAuth);
    // two refused polls, then the grant lands
    st = handshake_step(&cfg, st, HandshakeEvent::AuthChecked { granted: false });
    st = handshake_step(&cfg, st, HandshakeEvent::AuthChecked { granted: false });
    st = handshake_step(&cfg, st, HandshakeEvent::AuthChecked { granted: true });
    assert_eq!(st, HandshakeState::Listening);
    assert_eq!(next_action(&st), HandshakeAction::Listen);
}

#[test]
fn mismatched_events_change_nothing() {
    let cfg = default_config();
    let st = HandshakeState::Connecting { attempts: 3 };
    assert_eq!(
        handshake_step(&cfg, st, HandshakeEvent::AuthChecked { granted: true }),
        st
    );
    let st = HandshakeState::FailedNoServer;
    assert_eq!(
        handshake_step(&cfg, st, HandshakeEvent::PublishSeen { subscribers: 5 }),
        st
    );
}

#[test]
fn supervisor_counts_and_forgives() {
    // a quick failure adds to the streak
    assert_eq!(supervisor_after_failure(3, 10), 4);
    // a failure after a long stretch of operation starts a new streak
    assert_eq!(supervisor_after_failure(9, 61), 1);
    // the boundary: exactly the window does not forgive
    assert_eq!(supervisor_after_failure(3, 60), 4);
    assert!(supervisor_should_retry(9));
    assert!(!supervisor_should_retry(10));
}
