use shell_memory::dispatch::{classify_line, eq_ignore_case_str, trim_line, Action, Dispatcher, Mode};
use shell_memory::record::{CommandRecord, RecordSource};

fn rec(input: &str, at: u64) -> CommandRecord {
    CommandRecord::new(
        RecordSource::ShellCommand,
        input.to_string(),
        String::new(),
        String::new(),
        at,
    )
}

#[test]
fn trim_removes_surrounding_whitespace() {
    assert_eq!(trim_line("  hi \n"), "hi");
    assert_eq!(trim_line("\t\r\n "), "");
    assert_eq!(trim_line("no-trim"), "no-trim");
    assert_eq!(trim_line("a b"), "a b");
}

#[test]
fn case_insensitive_equality() {
    assert!(eq_ignore_case_str("AbC", "abc"));
    assert!(eq_ignore_case_str("EXIT", "exit"));
    assert!(!eq_ignore_case_str("exit", "exit "));
    assert!(!eq_ignore_case_str("reset", "resat"));
}

#[test]
fn empty_line_is_a_noop() {
    let d = classify_line(Mode::ShellMode, "   ");
    assert_eq!(d.action, Action::Prompt);
    assert_eq!(d.mode, Mode::ShellMode);
}

#[test]
fn exit_directive_matches_whole_trimmed_line_any_case() {
    assert_eq!(classify_line(Mode::ShellMode, "exit").action, Action::Terminate);
    assert_eq!(classify_line(Mode::AssistantMode, "  EXIT \n").action, Action::Terminate);
    // A line merely containing the word is not the directive.
    assert_eq!(classify_line(Mode::ShellMode, "exit now").action, Action::RunShell);
}

#[test]
fn reset_directive_keeps_the_mode() {
    let d = classify_line(Mode::AssistantMode, " Reset ");
    assert_eq!(d.action, Action::ResetHistory);
    assert_eq!(d.mode, Mode::AssistantMode);
}

#[test]
fn toggle_flips_both_ways() {
    let d = classify_line(Mode::ShellMode, "!");
    assert_eq!(d.mode, Mode::AssistantMode);
    assert_eq!(d.action, Action::AnnounceMode);
    let d2 = classify_line(Mode::AssistantMode, " ! ");
    assert_eq!(d2.mode, Mode::ShellMode);
    assert_eq!(d2.action, Action::AnnounceMode);
}

#[test]
fn double_bang_is_not_the_toggle() {
    let d = classify_line(Mode::ShellMode, "!!");
    assert_eq!(d.action, Action::RunShell);
    assert_eq!(d.mode, Mode::ShellMode);
}

#[test]
fn payload_goes_by_mode() {
    assert_eq!(classify_line(Mode::ShellMode, "ls -la").action, Action::RunShell);
    assert_eq!(classify_line(Mode::AssistantMode, "why did it fail?").action, Action::QueryAssistant);
}

#[test]
fn scenario_toggle_leaves_history_alone() {
    // Toggling while in ShellMode switches to AssistantMode and creates no
    // record: the history length is unchanged.
    let mut d = Dispatcher::new(1000, 3600, Vec::new());
    d.history.add(rec("ls", 1), 1);
    let before = d.history.entries.len();
    let a = d.handle_line("!");
    assert_eq!(a, Action::AnnounceMode);
    assert_eq!(d.mode, Mode::AssistantMode);
    assert_eq!(d.history.entries.len(), before);
    assert_eq!(d.history.current_bytes, 2);
}

#[test]
fn scenario_reset_empties_history_mid_session() {
    let mut d = Dispatcher::new(1000, 3600, Vec::new());
    d.history.add(rec("ls", 1), 1);
    d.history.add(rec("df", 2), 2);
    assert_eq!(d.history.entries.len(), 2);
    let a = d.handle_line("reset");
    assert_eq!(a, Action::ResetHistory);
    assert_eq!(d.history.entries.len(), 0);
    assert_eq!(d.history.current_bytes, 0);
    assert_eq!(d.mode, Mode::ShellMode);
}

#[test]
fn dispatcher_starts_in_shell_mode_with_empty_history() {
    let d = Dispatcher::new(500, 60, vec!["ls".to_string()]);
    assert_eq!(d.mode, Mode::ShellMode);
    assert_eq!(d.history.entries.len(), 0);
    assert_eq!(d.history.current_bytes, 0);
    assert_eq!(d.history.capacity_bytes, 500);
    assert_eq!(d.history.max_age, 60);
}

#[test]
fn recordable_commands_come_from_the_configured_set() {
    let d = Dispatcher::new(500, 60, vec!["ls".to_string(), "df".to_string()]);
    assert!(d.is_recordable(&"ls".to_string()));
    assert!(d.is_recordable(&"df".to_string()));
    assert!(!d.is_recordable(&"rm".to_string()));
    assert!(!d.is_recordable(&"ls ".to_string()));
}

#[test]
fn observe_execution_stores_only_recordable_commands() {
    let mut d = Dispatcher::new(1000, 3600, vec!["ls".to_string()]);
    let stored = d.observe_execution("ls".to_string(), "out".to_string(), "".to_string(), 10);
    assert!(stored);
    assert_eq!(d.history.entries.len(), 1);
    assert_eq!(d.history.entries[0].input, "ls");
    assert_eq!(d.history.entries[0].source, RecordSource::ShellCommand);
    assert_eq!(d.history.current_bytes, 5);
    let stored = d.observe_execution("rm".to_string(), "".to_string(), "".to_string(), 11);
    assert!(!stored);
    assert_eq!(d.history.entries.len(), 1);
}

#[test]
fn store_exchange_appends_the_query_and_reply() {
    let mut d = Dispatcher::new(1000, 3600, Vec::new());
    d.store_exchange("why?".to_string(), "because".to_string(), 20);
    assert_eq!(d.history.entries.len(), 1);
    let r = &d.history.entries[0];
    assert_eq!(r.source, RecordSource::AssistantExchange);
    assert_eq!(r.input, "why?");
    assert_eq!(r.stdout, "because");
    assert_eq!(r.stderr, "");
    assert_eq!(r.created_at, 20);
    assert_eq!(d.history.current_bytes, 11);
}

#[test]
fn stored_executions_still_respect_eviction() {
    // capacity 10: storing an 8-byte then a 6-byte execution evicts the first.
    let mut d = Dispatcher::new(10, 3600, vec!["ls".to_string(), "df".to_string()]);
    d.observe_execution("ls".to_string(), "abcdef".to_string(), "".to_string(), 1);
    assert_eq!(d.history.current_bytes, 8);
    d.observe_execution("df".to_string(), "abcd".to_string(), "".to_string(), 2);
    assert_eq!(d.history.entries.len(), 1);
    assert_eq!(d.history.entries[0].input, "df");
    assert_eq!(d.history.current_bytes, 6);
}

#[test]
fn terminate_changes_nothing_else() {
    let mut d = Dispatcher::new(1000, 3600, Vec::new());
    d.history.add(rec("ls", 1), 1);
    let a = d.handle_line("EXIT");
    assert_eq!(a, Action::Terminate);
    assert_eq!(d.mode, Mode::ShellMode);
    assert_eq!(d.history.entries.len(), 1);
}
