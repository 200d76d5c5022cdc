use bettercursor::process::{
    command_line_targets_session, cursor_processes_running, is_agent_worker,
    l3_lock_skip_reason, layer3_write_blocked, parse_pid,
};

#[test]
fn cursor_processes_running_returns_vec() {
    // No pgrep output: nothing blocks.
    let _ = cursor_processes_running(vec![], &vec![]);
}

#[test]
fn layer3_write_blocked_returns_vec() {
    let _ = layer3_write_blocked(&vec![None, None, None, None]);
}

#[test]
fn is_agent_worker_detects_worker_start() {
    let line = "370767 cursor-agent worker start --worker-dir /home/eric/workspace/bettercursor";
    assert!(is_agent_worker(line));
    assert!(!is_agent_worker("396140 agent --resume=abc-def"));
}

#[test]
fn command_line_targets_session_matches_resume() {
    let uuid = "d77a4a3f-145d-4350-856f-5ad28eed930d";
    let line = format!("396140 agent --resume={uuid}");
    assert!(command_line_targets_session(&line, uuid));
    assert!(!command_line_targets_session(&line, "00000000-0000-0000-0000-000000000000"));
}

#[test]
fn parse_pid_reads_leading_number() {
    assert_eq!(parse_pid("12345 /usr/bin/agent --foo"), Some(12345));
    assert_eq!(parse_pid("not-a-pid"), None);
}

#[test]
fn l3_lock_skip_reason_formats() {
    let reason = l3_lock_skip_reason(&["1 Cursor --type=zygote".into()]);
    assert!(reason.starts_with("l3_locked(1 proc"));
}
