use systemd_pilot::command::{
    command_line, daemon_reload_request, dec_string, elevated, install_write_request,
    list_units_request, logs_request, show_unit_request, unit_file_path, verb_request,
    ServiceVerb,
};

#[test]
fn test_list_units_arguments() {
    let req = list_units_request(false);
    assert_eq!(req.program, "systemctl");
    assert_eq!(req.args, vec!["list-units", "--type=service", "--no-pager"]);

    let req = list_units_request(true);
    assert_eq!(req.args, vec!["list-units", "--type=service", "--no-pager", "--all"]);
}

#[test]
fn test_show_unit_arguments() {
    let req = show_unit_request("sshd");
    assert_eq!(req.program, "systemctl");
    assert_eq!(req.args, vec!["show", "sshd", "--no-pager"]);
}

#[test]
fn test_verb_arguments() {
    assert_eq!(verb_request(ServiceVerb::Start, "cron").args, vec!["start", "cron"]);
    assert_eq!(verb_request(ServiceVerb::Stop, "cron").args, vec!["stop", "cron"]);
    assert_eq!(verb_request(ServiceVerb::Restart, "cron").args, vec!["restart", "cron"]);
    assert_eq!(verb_request(ServiceVerb::Enable, "cron").args, vec!["enable", "cron"]);
    assert_eq!(verb_request(ServiceVerb::Disable, "cron").args, vec!["disable", "cron"]);
    assert_eq!(verb_request(ServiceVerb::Reload, "cron").args, vec!["reload", "cron"]);
    assert_eq!(verb_request(ServiceVerb::Start, "cron").program, "systemctl");
}

#[test]
fn test_daemon_reload_arguments() {
    let req = daemon_reload_request();
    assert_eq!(req.program, "systemctl");
    assert_eq!(req.args, vec!["daemon-reload"]);
}

#[test]
fn test_logs_arguments() {
    let req = logs_request("nginx", None);
    assert_eq!(req.program, "journalctl");
    assert_eq!(req.args, vec!["-u", "nginx", "--no-pager"]);

    let req = logs_request("nginx", Some(50));
    assert_eq!(req.args, vec!["-u", "nginx", "--no-pager", "-n", "50"]);
}

#[test]
fn test_decimal_rendering() {
    assert_eq!(dec_string(0), "0");
    assert_eq!(dec_string(7), "7");
    assert_eq!(dec_string(10), "10");
    assert_eq!(dec_string(12345), "12345");
    assert_eq!(dec_string(u32::MAX), "4294967295");
}

#[test]
fn test_unit_file_path() {
    assert_eq!(unit_file_path("myapp"), "/etc/systemd/system/myapp.service");
}

#[test]
fn test_install_write_command() {
    let req = install_write_request("myapp");
    assert_eq!(req.program, "sudo");
    assert_eq!(req.args, vec!["tee", "/etc/systemd/system/myapp.service"]);
}

#[test]
fn test_remote_command_line() {
    let line = command_line(&show_unit_request("sshd"));
    assert_eq!(line, "systemctl show sshd --no-pager");
    let line = command_line(&list_units_request(true));
    assert_eq!(line, "systemctl list-units --type=service --no-pager --all");
}

#[test]
fn test_elevated_command_line() {
    let req = elevated(verb_request(ServiceVerb::Start, "nginx"));
    assert_eq!(req.program, "sudo");
    assert_eq!(req.args, vec!["systemctl", "start", "nginx"]);
    assert_eq!(command_line(&req), "sudo systemctl start nginx");
}
