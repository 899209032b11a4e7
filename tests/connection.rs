use tmix::{
    ConnectProgress, ConnectionError, ConnectionManager, ConnectionState, ContextState,
    IterateOutcome,
};

fn connecting() -> ConnectionManager {
    let mut m = ConnectionManager::new();
    assert_eq!(m.state(), ConnectionState::Unconnected);
    assert_eq!(m.connect_started(true), ConnectProgress::Waiting);
    m
}

#[test]
fn connect_waits_until_context_ready() {
    let mut m = connecting();
    let d = IterateOutcome::Dispatched;
    for s in [ContextState::Connecting, ContextState::Authorizing, ContextState::SettingName] {
        assert_eq!(m.on_connect_step(d, s), ConnectProgress::Waiting);
        assert_eq!(m.state(), ConnectionState::Connecting);
    }
    assert_eq!(m.on_connect_step(d, ContextState::Ready), ConnectProgress::Ready);
    assert!(m.is_ready());
}

#[test]
fn connect_refused_fails() {
    let mut m = ConnectionManager::new();
    assert_eq!(
        m.connect_started(false),
        ConnectProgress::Failed(ConnectionError::ConnectRefused)
    );
    assert_eq!(m.state(), ConnectionState::Failed);
}

#[test]
fn context_failure_ends_connect() {
    let mut m = connecting();
    let r = m.on_connect_step(IterateOutcome::Dispatched, ContextState::Failed);
    assert_eq!(r, ConnectProgress::Failed(ConnectionError::ContextFailed));
    assert_eq!(m.state(), ConnectionState::Failed);
}

#[test]
fn context_terminated_ends_connect() {
    let mut m = connecting();
    let r = m.on_connect_step(IterateOutcome::Dispatched, ContextState::Terminated);
    assert_eq!(r, ConnectProgress::Failed(ConnectionError::ContextTerminated));
    assert_eq!(m.state(), ConnectionState::Terminated);
}

#[test]
fn loop_quit_or_failure_ends_connect() {
    let mut m = connecting();
    let r = m.on_connect_step(IterateOutcome::Quit, ContextState::Ready);
    assert_eq!(r, ConnectProgress::Failed(ConnectionError::LoopQuit));
    let mut m = connecting();
    let r = m.on_connect_step(IterateOutcome::Failed, ContextState::Connecting);
    assert_eq!(r, ConnectProgress::Failed(ConnectionError::LoopFailed));
    assert_eq!(m.state(), ConnectionState::Failed);
}

#[test]
fn serving_step_reports_later_failure() {
    let mut m = connecting();
    m.on_connect_step(IterateOutcome::Dispatched, ContextState::Ready);
    assert_eq!(m.on_serving_step(IterateOutcome::Dispatched, ContextState::Ready), Ok(()));
    assert!(m.is_ready());
    assert_eq!(
        m.on_serving_step(IterateOutcome::Dispatched, ContextState::Failed),
        Err(ConnectionError::ContextFailed)
    );
    assert!(!m.is_ready());
}

#[test]
fn shutdown_tears_down_once() {
    let mut m = connecting();
    m.on_connect_step(IterateOutcome::Dispatched, ContextState::Ready);
    assert!(m.shutdown());
    assert_eq!(m.state(), ConnectionState::Terminated);
    assert!(!m.shutdown());
    let mut fresh = ConnectionManager::new();
    assert!(!fresh.shutdown());
    assert_eq!(fresh.state(), ConnectionState::Unconnected);
}
