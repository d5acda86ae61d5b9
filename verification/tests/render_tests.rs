use shell_memory::history::MemoryCache;
use shell_memory::record::{CommandRecord, RecordSource};

fn rec(input: &str, stdout: &str, stderr: &str, at: u64) -> CommandRecord {
    CommandRecord::new(
        RecordSource::ShellCommand,
        input.to_string(),
        stdout.to_string(),
        stderr.to_string(),
        at,
    )
}

#[test]
fn empty_history_renders_empty_context() {
    let cache = MemoryCache::new(100, 3600);
    assert_eq!(cache.get_context(), "");
}

#[test]
fn one_record_renders_exactly() {
    let mut cache = MemoryCache::new(1000, 3600);
    cache.add(rec("ls", "ok", "", 42), 42);
    assert_eq!(
        cache.get_context(),
        "Command: ls\nTimestamp: 42\nStdout: ok\nStderr: \n"
    );
}

#[test]
fn two_records_are_joined_with_a_blank_line() {
    let mut cache = MemoryCache::new(1000, 3600);
    cache.add(rec("ls", "a", "", 1), 1);
    cache.add(rec("df", "b", "e", 2), 2);
    assert_eq!(
        cache.get_context(),
        "Command: ls\nTimestamp: 1\nStdout: a\nStderr: \n\nCommand: df\nTimestamp: 2\nStdout: b\nStderr: e\n"
    );
}

#[test]
fn timestamps_render_in_full_decimal() {
    let mut cache = MemoryCache::new(1000, u64::MAX);
    cache.add(rec("t", "", "", 0), 0);
    assert_eq!(
        cache.get_context(),
        "Command: t\nTimestamp: 0\nStdout: \nStderr: \n"
    );
    cache.clear();
    cache.add(rec("t", "", "", 1234567890), 1234567890);
    assert_eq!(
        cache.get_context(),
        "Command: t\nTimestamp: 1234567890\nStdout: \nStderr: \n"
    );
}

#[test]
fn context_lists_entries_oldest_first() {
    let mut cache = MemoryCache::new(1000, 3600);
    cache.add(rec("first", "", "", 10), 10);
    cache.add(rec("second", "", "", 11), 11);
    cache.add(rec("third", "", "", 12), 12);
    let ctx = cache.get_context();
    let a = ctx.find("first").unwrap();
    let b = ctx.find("second").unwrap();
    let c = ctx.find("third").unwrap();
    assert!(a < b && b < c);
}

#[test]
fn rendering_does_not_change_the_cache() {
    let mut cache = MemoryCache::new(1000, 3600);
    cache.add(rec("ls", "out", "err", 9), 9);
    let before_len = cache.entries.len();
    let before_bytes = cache.current_bytes;
    let first = cache.get_context();
    let second = cache.get_context();
    assert_eq!(first, second);
    assert_eq!(cache.entries.len(), before_len);
    assert_eq!(cache.current_bytes, before_bytes);
}
