use system_check::commands::{
    apple_terminal_script, exec_shutdown_command, gnome_shell_line, gnome_terminal_flag,
    open_ssh_terminal_command, run_system_check, windows_terminal_flag, WindowMode,
};

#[test]
fn remote_host_plain_ssh() {
    let (args, mode) = open_ssh_terminal_command("robot1", "10.0.0.5", false, "");
    assert_eq!(args, "ssh robot1");
    assert_eq!(mode, WindowMode::Tab);
}

#[test]
fn remote_host_with_startup_script() {
    let (args, _mode) = open_ssh_terminal_command("robot1", "10.0.0.5", true, "ros2 launch x");
    assert_eq!(args, "ssh -t robot1 \"bash -i -c 'ros2 launch x'\"");
}

#[test]
fn local_by_loopback_ip_plain() {
    let (args, _mode) = open_ssh_terminal_command("robot1", "127.0.0.1", false, "whatever");
    assert_eq!(args, "echo 'Starting Local Terminal'");
}

#[test]
fn local_by_hostname_with_startup_script() {
    let (args, _mode) = open_ssh_terminal_command("localhost", "10.0.0.5", true, "ros2 launch x");
    assert_eq!(args, "bash -i -c 'ros2 launch x'");
}

#[test]
fn shutdown_command_opens_new_window() {
    let (args, mode) = exec_shutdown_command("robot1");
    assert_eq!(args, "ssh -t robot1 \"sudo shutdown -h now\"");
    assert_eq!(mode, WindowMode::NewWindow);
}

#[test]
fn failed_run_reports_exit_status_and_stderr() {
    let r = run_system_check(false, "exit status: 255", "ignored", "no route to host");
    let err = r.err().unwrap();
    assert_eq!(err, "Exit code: exit status: 255\nStdErr: no route to host");
}

#[test]
fn successful_run_parses_stdout() {
    let r = run_system_check(true, "exit status: 0", "[PASS] Battery, ok", "");
    let report = r.ok().unwrap();
    assert_eq!(report.summary.len(), 1);
    assert_eq!(report.summary[0].name, "Battery");
}

#[test]
fn terminal_flags_per_mode() {
    assert_eq!(windows_terminal_flag(WindowMode::Tab), "0");
    assert_eq!(windows_terminal_flag(WindowMode::NewWindow), "-1");
    assert_eq!(gnome_terminal_flag(WindowMode::Tab), "--tab");
    assert_eq!(gnome_terminal_flag(WindowMode::NewWindow), "--window");
}

#[test]
fn gnome_line_keeps_shell_open() {
    assert_eq!(gnome_shell_line("ssh robot1"), "ssh robot1; exec bash");
}

#[test]
fn apple_script_new_window_wraps_command() {
    assert_eq!(
        apple_terminal_script("ssh robot1", WindowMode::NewWindow),
        "tell application \"Terminal\" to do script \"ssh robot1\""
    );
}
