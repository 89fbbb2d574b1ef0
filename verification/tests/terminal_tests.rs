use http_management::http::{HttpMethod, Permission};
use http_management::terminal::{
    allowed_command_list, choose_shell, default_timeout, is_safe_command, TerminalResponse, TerminalRoute,
};

#[test]
fn allows_diagnostic_commands() {
    assert!(is_safe_command("ls -la /var/log"));
    assert!(is_safe_command("  uptime  "));
    assert!(is_safe_command("docker ps -a"));
    assert!(is_safe_command("systemctl status stalwart"));
    assert!(is_safe_command("cat /etc/hosts | grep mail"));
    assert!(!is_safe_command("rm -rf /"));
    assert!(!is_safe_command(""));
    assert!(!is_safe_command("ls; rm -rf /"));
    assert!(!is_safe_command("ls && reboot"));
    assert!(!is_safe_command("ls > /tmp/x"));
    assert!(!is_safe_command("echo `id`"));
    assert!(!is_safe_command("ls $(id)"));
    assert!(!is_safe_command("bash -c ls"));
    assert!(!is_safe_command("rm x | grep y"));
    assert!(!is_safe_command("status"));
}

#[test]
fn refuses_chaining_even_with_a_pipe() {
    assert!(!is_safe_command("ls && rm -rf / | cat"));
    assert!(!is_safe_command("ls; rm -rf / | grep x"));
    assert!(!is_safe_command("ls || rm -rf /"));
    assert!(!is_safe_command("cat /etc/hosts | grep x > /tmp/y"));
}

#[test]
fn every_piped_stage_must_be_allowed() {
    assert!(is_safe_command("ps aux | grep stalwart | head -n 5"));
    assert!(is_safe_command("docker logs mail | tail"));
    assert!(!is_safe_command("ls | xargs rm -rf"));
    assert!(!is_safe_command("cat /etc/hosts | sh"));
    assert!(!is_safe_command("ls |"));
    assert!(!is_safe_command("ls | | grep x"));
}

#[test]
fn two_word_entries_match_both_words() {
    assert!(is_safe_command("systemctl status stalwart"));
    assert!(is_safe_command("docker inspect mail"));
    assert!(!is_safe_command("systemctl stop stalwart"));
    assert!(!is_safe_command("docker rm -f app"));
    assert!(!is_safe_command("docker"));
    assert!(!is_safe_command("lsblk"));
}

#[test]
fn terminal_routes() {
    let p = |parts: &[&str]| parts.iter().map(|s| s.to_string()).collect::<Vec<_>>();
    assert_eq!(TerminalRoute::route(&p(&["terminal", "exec"]), HttpMethod::Post), TerminalRoute::Exec);
    assert_eq!(TerminalRoute::route(&p(&["terminal", "info"]), HttpMethod::Get), TerminalRoute::Info);
    assert_eq!(TerminalRoute::route(&p(&["terminal"]), HttpMethod::Get), TerminalRoute::Info);
    assert_eq!(TerminalRoute::route(&p(&["terminal", "exec"]), HttpMethod::Get), TerminalRoute::NotFound);
    assert_eq!(TerminalRoute::permission(), Permission::Restart);
}

#[test]
fn shell_and_defaults() {
    assert_eq!(choose_shell(true, true), "/bin/bash");
    assert_eq!(choose_shell(false, true), "/bin/sh");
    assert_eq!(choose_shell(false, false), "sh");
    assert_eq!(default_timeout(), 30);
    let list = allowed_command_list();
    assert_eq!(list.len(), 31);
    assert_eq!(list[26], "systemctl status");
}

#[test]
fn terminal_responses() {
    let r = TerminalResponse::timed_out(30);
    assert_eq!(r.stderr, "Command timed out after 30 seconds");
    assert!(!r.success && r.exit_code.is_none() && r.stdout.is_empty());
    let r = TerminalResponse::failed("No such file");
    assert_eq!(r.stderr, "Failed to execute command: No such file");
    let r = TerminalResponse::completed("out".into(), "".into(), Some(0), true);
    assert_eq!(r.stdout, "out");
    assert_eq!(r.exit_code, Some(0));
}
