use systemd_pilot::control::{
    install_advance, install_reload_outcome, install_write_outcome, list_units_outcome,
    logs_outcome, poll_verdict, unit_status_outcome, verb_outcome, CommandResult, ControlError,
    ConnectError, ExecError, InstallError, InstallPhase,
};
use systemd_pilot::status::ServiceStatus;

fn ok_result(stdout: &str) -> CommandResult {
    CommandResult { stdout: stdout.to_string(), stderr: String::new(), exit_success: true }
}

fn failed_result(stderr: &str) -> CommandResult {
    CommandResult { stdout: String::new(), stderr: stderr.to_string(), exit_success: false }
}

#[test]
fn test_verb_outcome() {
    assert!(verb_outcome(&ok_result("")).is_ok());
    let err = verb_outcome(&failed_result("permission denied")).unwrap_err();
    let ControlError::CommandFailed { stderr } = err;
    assert_eq!(stderr, "permission denied");
}

#[test]
fn test_error_message_carries_stderr_verbatim() {
    let err = verb_outcome(&failed_result("unit not found")).unwrap_err();
    assert_eq!(err.message("systemctl command failed"), "systemctl command failed: unit not found");
}

#[test]
fn test_list_units_outcome() {
    let res = ok_result("UNIT LOAD ACTIVE SUB\nsshd.service loaded active running\n");
    let units = list_units_outcome(&res).unwrap();
    assert_eq!(units.len(), 1);
    assert_eq!(units[0].name, "sshd");

    let err = list_units_outcome(&failed_result("boom")).unwrap_err();
    let ControlError::CommandFailed { stderr } = err;
    assert_eq!(stderr, "boom");
}

#[test]
fn test_unit_status_outcome() {
    let res = ok_result("ActiveState=inactive\nSubState=dead\nLoadState=loaded\n");
    let unit = unit_status_outcome("cron", &res).unwrap();
    assert_eq!(unit.name, "cron");
    assert_eq!(unit.status, ServiceStatus::Inactive);
    assert!(unit_status_outcome("cron", &failed_result("no")).is_err());
}

#[test]
fn test_logs_outcome_returns_text_unmodified() {
    let raw = "May 01 journal line one\nMay 02 line two\n";
    assert_eq!(logs_outcome(&ok_result(raw)).unwrap(), raw);
    assert!(logs_outcome(&failed_result("nope")).is_err());
}

#[test]
fn test_install_write_failure() {
    let err = install_write_outcome(&failed_result("sudo: rejected")).unwrap_err();
    assert!(matches!(err, InstallError::WriteRejected { .. }));
    let InstallError::WriteRejected { stderr } = err else {
        unreachable!();
    };
    assert_eq!(stderr, "sudo: rejected");
    assert!(install_write_outcome(&ok_result("")).is_ok());
}

#[test]
fn test_install_reload_failure_is_distinct() {
    let err = install_reload_outcome(&failed_result("reload refused")).unwrap_err();
    assert!(matches!(err, InstallError::ReloadFailed { .. }));
    assert!(!matches!(err, InstallError::WriteRejected { .. }));
    let InstallError::ReloadFailed { stderr } = err else {
        unreachable!();
    };
    assert_eq!(stderr, "reload refused");
}

#[test]
fn test_install_phases() {
    let p = InstallPhase::NeedWrite;
    let p = install_advance(p, &ok_result(""));
    assert_eq!(p, InstallPhase::NeedReload);
    // a failed reload reports failure but the written file stays written
    let p = install_advance(p, &failed_result("reload refused"));
    assert_eq!(p, InstallPhase::ReloadFailedAfterWrite);
    assert_ne!(p, InstallPhase::WriteFailed);

    let q = install_advance(InstallPhase::NeedWrite, &failed_result("denied"));
    assert_eq!(q, InstallPhase::WriteFailed);

    let done = install_advance(install_advance(InstallPhase::NeedWrite, &ok_result("")), &ok_result(""));
    assert_eq!(done, InstallPhase::Complete);
}

#[test]
fn test_poll_verdict_bounds_the_wait() {
    assert_eq!(poll_verdict(0, 5_000), Ok(()));
    assert_eq!(poll_verdict(4_999, 5_000), Ok(()));
    assert_eq!(poll_verdict(5_000, 5_000), Err(ExecError::Timeout));
    assert_eq!(poll_verdict(9_000, 5_000), Err(ExecError::Timeout));
}

#[test]
fn test_error_labels() {
    assert_eq!(ExecError::NoSession.label(), "no session is established for this host");
    assert_eq!(ExecError::Timeout.label(), "the remote side sent no data in time");
    assert_eq!(ConnectError::AuthRejected.label(), "the host rejected the credential");
}
