//! Construction of the exact shell strings handed to the terminal launcher,
//! and the decision a diagnostic run makes on the captured output of its
//! SSH invocation.
//!
//! Spawning the terminal and the SSH process is the caller's business;
//! everything decidable from plain values is verified here.

use vstd::prelude::*;
use crate::chars::{chars_of, string_of, append_all, eq_chars};
use crate::report::SystemCheckReport;
use crate::parser::{report_of, parse_check_output};

verus! {

/// Whether a launched command opens in a new tab of an existing terminal
/// window or in a new window.
#[derive(Clone, Copy, Debug, PartialEq, Eq, Structural)]
pub enum WindowMode {
    Tab,
    NewWindow,
}

/// A host counts as local when its address is the loopback address or its
/// name is `localhost`.
pub open spec fn is_local_of(hostname: Seq<char>, ip: Seq<char>) -> bool {
    ip == "127.0.0.1"@ || hostname == "localhost"@
}

/// The shell string an interactive SSH session uses: a local shell for the
/// local host, plain `ssh` otherwise, in both cases wrapping the remote
/// command in an interactive shell when the startup script is requested.
pub open spec fn ssh_shell_args_of(
    hostname: Seq<char>,
    ip: Seq<char>,
    run_ros: bool,
    remote_command: Seq<char>,
) -> Seq<char> {
    if is_local_of(hostname, ip) {
        if run_ros {
            "bash -i -c '"@ + remote_command + "'"@
        } else {
            "echo 'Starting Local Terminal'"@
        }
    } else if run_ros {
        "ssh -t "@ + hostname + " \"bash -i -c '"@ + remote_command + "'\""@
    } else {
        "ssh "@ + hostname
    }
}

/// The shell string a remote shutdown uses.
pub open spec fn shutdown_args_of(hostname: Seq<char>) -> Seq<char> {
    "ssh -t "@ + hostname + " \"sudo shutdown -h now\""@
}

/// Builds the shell string and window mode for opening an SSH terminal
/// session: the command `ssh_shell_args_of` describes, always in a tab.
pub fn open_ssh_terminal_command(
    hostname: &str,
    ip: &str,
    run_ros: bool,
    remote_command: &str,
) -> (r: (String, WindowMode))
    ensures
        r.0@ == ssh_shell_args_of(hostname@, ip@, run_ros, remote_command@),
        r.1 == WindowMode::Tab,
{
    let hostv = chars_of(hostname);
    let is_local = eq_chars(&chars_of(ip), &chars_of("127.0.0.1")) || eq_chars(
        &hostv,
        &chars_of("localhost"),
    );
    let args: String = if is_local {
        if run_ros {
            let mut v = chars_of("bash -i -c '");
            append_all(&mut v, &chars_of(remote_command));
            append_all(&mut v, &chars_of("'"));
            string_of(&v)
        } else {
            let v = chars_of("echo 'Starting Local Terminal'");
            string_of(&v)
        }
    } else if run_ros {
        let mut v = chars_of("ssh -t ");
        append_all(&mut v, &hostv);
        append_all(&mut v, &chars_of(" \"bash -i -c '"));
        append_all(&mut v, &chars_of(remote_command));
        append_all(&mut v, &chars_of("'\""));
        string_of(&v)
    } else {
        let mut v = chars_of("ssh ");
        append_all(&mut v, &hostv);
        string_of(&v)
    };
    (args, WindowMode::Tab)
}

/// Builds the shell string and window mode for a remote shutdown: an
/// interactive-terminal SSH invocation of `sudo shutdown`, in a new window.
pub fn exec_shutdown_command(hostname: &str) -> (r: (String, WindowMode))
    ensures
        r.0@ == shutdown_args_of(hostname@),
        r.1 == WindowMode::NewWindow,
{
    let mut v = chars_of("ssh -t ");
    append_all(&mut v, &chars_of(hostname));
    append_all(&mut v, &chars_of(" \"sudo shutdown -h now\""));
    (string_of(&v), WindowMode::NewWindow)
}

/// The window flag handed to the Windows Terminal launcher: window `0`
/// reuses the current window for a tab, `-1` forces a new window.
pub fn windows_terminal_flag(mode: WindowMode) -> (r: String)
    ensures
        mode == WindowMode::Tab ==> r@ == "0"@,
        mode == WindowMode::NewWindow ==> r@ == "-1"@,
{
    match mode {
        WindowMode::Tab => string_of(&chars_of("0")),
        WindowMode::NewWindow => string_of(&chars_of("-1")),
    }
}

/// The placement flag handed to the GNOME terminal launcher.
pub fn gnome_terminal_flag(mode: WindowMode) -> (r: String)
    ensures
        mode == WindowMode::Tab ==> r@ == "--tab"@,
        mode == WindowMode::NewWindow ==> r@ == "--window"@,
{
    match mode {
        WindowMode::Tab => string_of(&chars_of("--tab")),
        WindowMode::NewWindow => string_of(&chars_of("--window")),
    }
}

/// The command line run inside the GNOME terminal: the shell string followed
/// by a replacement shell, so the window stays open.
pub fn gnome_shell_line(ssh_args: &str) -> (r: String)
    ensures
        r@ == ssh_args@ + "; exec bash"@,
{
    let mut v = chars_of(ssh_args);
    append_all(&mut v, &chars_of("; exec bash"));
    string_of(&v)
}

/// The AppleScript program that drives Terminal.app: for a tab it activates
/// the terminal, sends the new-tab keystroke, and runs the command in the
/// front window; for a new window it runs the command directly.
pub fn apple_terminal_script(ssh_args: &str, mode: WindowMode) -> (r: String)
    ensures
        mode == WindowMode::Tab ==> r@
            == "tell application \"Terminal\" to activate\n                 tell application \"System Events\" to keystroke \"t\" using command down\n                 delay 0.2\n                 tell application \"Terminal\" to do script \""@
            + ssh_args@ + "\" in front window"@,
        mode == WindowMode::NewWindow ==> r@
            == "tell application \"Terminal\" to do script \""@ + ssh_args@ + "\""@,
{
    match mode {
        WindowMode::Tab => {
            let mut v = chars_of(
                "tell application \"Terminal\" to activate\n                 tell application \"System Events\" to keystroke \"t\" using command down\n                 delay 0.2\n                 tell application \"Terminal\" to do script \"",
            );
            append_all(&mut v, &chars_of(ssh_args));
            append_all(&mut v, &chars_of("\" in front window"));
            string_of(&v)
        },
        WindowMode::NewWindow => {
            let mut v = chars_of("tell application \"Terminal\" to do script \"");
            append_all(&mut v, &chars_of(ssh_args));
            append_all(&mut v, &chars_of("\""));
            string_of(&v)
        },
    }
}

/// Decides the result of a diagnostic run from what its SSH invocation
/// produced: on a successful exit the captured standard output is parsed
/// into a report; on a failed exit the parse is skipped and the error spells
/// out the exit status and the captured standard error.
pub fn run_system_check(
    exit_success: bool,
    status_text: &str,
    stdout: &str,
    stderr: &str,
) -> (r: Result<SystemCheckReport, String>)
    ensures
        match r {
            Ok(rep) => exit_success && rep@ == report_of(stdout@),
            Err(e) => !exit_success && e@ == "Exit code: "@ + status_text@ + "\nStdErr: "@
                + stderr@,
        },
{
    if exit_success {
        Ok(parse_check_output(stdout))
    } else {
        let mut v = chars_of("Exit code: ");
        append_all(&mut v, &chars_of(status_text));
        append_all(&mut v, &chars_of("\nStdErr: "));
        append_all(&mut v, &chars_of(stderr));
        Err(string_of(&v))
    }
}

} // verus!
