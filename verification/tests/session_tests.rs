use systemd_pilot::control::ExecError;
use systemd_pilot::session::{ConnectPlan, SessionManager, SessionState};

#[test]
fn test_remote_call_without_connect_fails_with_no_session() {
    let mgr = SessionManager::new();
    assert_eq!(mgr.require_connected("alpha"), Err(ExecError::NoSession));
    assert_eq!(mgr.state_of("alpha"), SessionState::Disconnected);
}

#[test]
fn test_connect_lifecycle() {
    let mut mgr = SessionManager::new();
    mgr.begin_connect("alpha");
    assert_eq!(mgr.state_of("alpha"), SessionState::Connecting);
    // still no established session: commands are refused
    assert_eq!(mgr.require_connected("alpha"), Err(ExecError::NoSession));

    mgr.finish_connect("alpha", true, 1_000);
    assert_eq!(mgr.state_of("alpha"), SessionState::Connected);
    assert_eq!(mgr.require_connected("alpha"), Ok(()));
}

#[test]
fn test_failed_connect() {
    let mut mgr = SessionManager::new();
    mgr.begin_connect("alpha");
    mgr.finish_connect("alpha", false, 1_000);
    assert_eq!(mgr.state_of("alpha"), SessionState::Failed);
    assert_eq!(mgr.require_connected("alpha"), Err(ExecError::NoSession));
}

#[test]
fn test_disconnect_is_idempotent() {
    let mut mgr = SessionManager::new();
    mgr.disconnect("ghost");
    assert_eq!(mgr.state_of("ghost"), SessionState::Disconnected);

    mgr.begin_connect("alpha");
    mgr.finish_connect("alpha", true, 5);
    mgr.disconnect("alpha");
    assert_eq!(mgr.state_of("alpha"), SessionState::Disconnected);
    mgr.disconnect("alpha");
    assert_eq!(mgr.state_of("alpha"), SessionState::Disconnected);
}

#[test]
fn test_same_host_commands_are_serialized() {
    let mut mgr = SessionManager::new();
    mgr.begin_connect("alpha");
    mgr.finish_connect("alpha", true, 10);

    assert!(mgr.acquire("alpha"));
    // while one command is in flight, the same session cannot be taken again
    assert!(!mgr.acquire("alpha"));
    mgr.finish_command("alpha", true, 20);
    assert!(mgr.acquire("alpha"));
}

#[test]
fn test_different_hosts_do_not_block_each_other() {
    let mut mgr = SessionManager::new();
    mgr.begin_connect("alpha");
    mgr.finish_connect("alpha", true, 10);
    mgr.begin_connect("beta");
    mgr.finish_connect("beta", true, 10);

    assert!(mgr.acquire("alpha"));
    assert!(mgr.acquire("beta"));
    assert!(!mgr.acquire("alpha"));
    mgr.finish_command("beta", true, 30);
    assert!(mgr.acquire("beta"));
    assert_eq!(mgr.state_of("alpha"), SessionState::Connected);
}

#[test]
fn test_transport_failure_invalidates_session() {
    let mut mgr = SessionManager::new();
    mgr.begin_connect("alpha");
    mgr.finish_connect("alpha", true, 10);
    assert!(mgr.acquire("alpha"));
    mgr.finish_command("alpha", false, 20);
    assert_eq!(mgr.state_of("alpha"), SessionState::Failed);
    assert_eq!(mgr.require_connected("alpha"), Err(ExecError::NoSession));
    assert!(!mgr.acquire("alpha"));
}

#[test]
fn test_acquire_requires_connection() {
    let mut mgr = SessionManager::new();
    assert!(!mgr.acquire("alpha"));
    mgr.begin_connect("alpha");
    assert!(!mgr.acquire("alpha"));
}

#[test]
fn test_staleness_window() {
    let mut mgr = SessionManager::new();
    mgr.begin_connect("alpha");
    mgr.finish_connect("alpha", true, 1_000);
    assert!(!mgr.is_stale("alpha", 1_500, 600));
    assert!(mgr.is_stale("alpha", 1_601, 600));
    // only a connected session can be stale
    mgr.disconnect("alpha");
    assert!(!mgr.is_stale("alpha", 10_000, 600));
    assert!(!mgr.is_stale("never-seen", 10_000, 600));
}

#[test]
fn test_connect_plan() {
    let mut mgr = SessionManager::new();
    assert_eq!(mgr.connect_plan("alpha", 100, 50), ConnectPlan::ConnectFirst);
    mgr.begin_connect("alpha");
    assert_eq!(mgr.connect_plan("alpha", 100, 50), ConnectPlan::ConnectFirst);
    mgr.finish_connect("alpha", true, 100);
    assert_eq!(mgr.connect_plan("alpha", 120, 50), ConnectPlan::UseExisting);
    // past the staleness window the session is re-established, not reused
    assert_eq!(mgr.connect_plan("alpha", 151, 50), ConnectPlan::ConnectFirst);
}
