use soyuz_studio::terminal::{
    debug_timestamp, format_debug_time, should_capture, should_ignore_target, MessageVisitor, TerminalBuffer,
    TerminalEntry, TerminalFilter, TerminalLevel, MAX_TERMINAL_ENTRIES,
};

fn entry_at(secs: u64) -> TerminalEntry {
    TerminalEntry { timestamp_secs: secs, level: TerminalLevel::Info, message: "test".to_string(), target: None }
}

#[test]
fn test_terminal_level_prefix() {
    assert_eq!(TerminalLevel::Error.prefix(), "ERROR");
    assert_eq!(TerminalLevel::Info.prefix(), "INFO");
}

#[test]
fn test_terminal_buffer_push_and_snapshot() {
    let mut buffer = TerminalBuffer::new();
    buffer.push(TerminalEntry::new(TerminalLevel::Info, "Test message".to_string()));

    let snapshot = buffer.snapshot_with_ids();
    assert_eq!(snapshot.len(), 1);
    assert_eq!(snapshot[0].1.message, "Test message");
    assert_eq!(snapshot[0].1.level, TerminalLevel::Info);
    assert_eq!(snapshot[0].0, 0);
    assert!(snapshot[0].1.timestamp_secs > 0);
}

#[test]
fn test_terminal_buffer_clear() {
    let mut buffer = TerminalBuffer::new();
    buffer.push(TerminalEntry::new(TerminalLevel::Info, "Message 1".to_string()));
    buffer.push(TerminalEntry::new(TerminalLevel::Error, "Message 2".to_string()));

    assert_eq!(buffer.snapshot_with_ids().len(), 2);
    buffer.clear();
    assert!(buffer.snapshot_with_ids().is_empty());

    buffer.push(TerminalEntry::new(TerminalLevel::Info, "Message 3".to_string()));
    assert_eq!(buffer.snapshot_with_ids()[0].0, 2);
}

#[test]
fn test_terminal_buffer_max_entries() {
    let mut buffer = TerminalBuffer::new();
    for i in 0..(MAX_TERMINAL_ENTRIES + 100) {
        buffer.push(TerminalEntry::new(TerminalLevel::Debug, format!("Message {}", i)));
    }

    let snapshot = buffer.snapshot_with_ids();
    assert_eq!(snapshot.len(), MAX_TERMINAL_ENTRIES);
    assert!(snapshot[0].1.message.contains("100"));
    assert_eq!(snapshot[0].0, 100);
}

#[test]
fn test_terminal_filter_default() {
    let filter = TerminalFilter::default();
    assert!(filter.show_info);
    assert!(filter.show_warn);
    assert!(filter.show_error);
}

#[test]
fn test_terminal_filter_toggle() {
    let mut filter = TerminalFilter::default();

    filter.toggle(TerminalLevel::Info);
    assert!(!filter.show_info);
    assert!(filter.show_warn);
    assert!(filter.show_error);

    filter.toggle(TerminalLevel::Info);
    assert!(filter.show_info);
}

#[test]
fn test_terminal_filter_should_show() {
    let mut filter = TerminalFilter::default();

    assert!(filter.should_show(TerminalLevel::Info));
    assert!(filter.should_show(TerminalLevel::Warn));
    assert!(filter.should_show(TerminalLevel::Error));

    assert!(!filter.should_show(TerminalLevel::Debug));
    assert!(!filter.should_show(TerminalLevel::Trace));

    filter.show_warn = false;
    assert!(filter.should_show(TerminalLevel::Info));
    assert!(!filter.should_show(TerminalLevel::Warn));
    assert!(filter.should_show(TerminalLevel::Error));
}

#[test]
fn test_format_timestamp_24h() {
    let entry = entry_at(50400);
    assert_eq!(entry.format_timestamp(0, true), "14:00:00");
    assert_eq!(entry.format_timestamp(-5, true), "09:00:00");
    assert_eq!(entry.format_timestamp(8, true), "22:00:00");
}

#[test]
fn test_format_timestamp_12h() {
    let entry = entry_at(50400);
    assert_eq!(entry.format_timestamp(0, false), "02:00:00 PM");

    let midnight_entry = entry_at(0);
    assert_eq!(midnight_entry.format_timestamp(0, false), "12:00:00 AM");

    let noon_entry = entry_at(43200);
    assert_eq!(noon_entry.format_timestamp(0, false), "12:00:00 PM");
}

#[test]
fn format_timestamp_wraps_before_the_epoch() {
    // One hour west of midnight of the epoch wraps around 64 bits:
    // 2^64 - 3600 seconds is 06:00:16 into its day.
    assert_eq!(entry_at(0).format_timestamp(-1, true), "06:00:16");
    assert_eq!(entry_at(3661).format_timestamp(0, true), "01:01:01");
    assert_eq!(entry_at(3661).format_timestamp(0, false), "01:01:01 AM");
}

#[test]
fn toggling_twice_restores_the_filter() {
    for level in [TerminalLevel::Trace, TerminalLevel::Debug, TerminalLevel::Info, TerminalLevel::Warn, TerminalLevel::Error] {
        let mut filter = TerminalFilter { show_info: true, show_warn: false, show_error: true };
        let before = filter;
        filter.toggle(level);
        filter.toggle(level);
        assert_eq!(filter, before);
    }
    let mut filter = TerminalFilter::default();
    filter.toggle(TerminalLevel::Debug);
    assert_eq!(filter, TerminalFilter::default());
}

#[test]
fn entries_with_target_keep_it() {
    let entry = TerminalEntry::with_target(TerminalLevel::Warn, "careful".to_string(), "soyuz::engine".to_string());
    assert_eq!(entry.level, TerminalLevel::Warn);
    assert_eq!(entry.message, "careful");
    assert_eq!(entry.target.as_deref(), Some("soyuz::engine"));
    assert_eq!(TerminalEntry::new(TerminalLevel::Trace, "x".to_string()).target, None);
}

#[test]
fn framework_targets_are_not_captured() {
    assert!(should_ignore_target("dioxus_core::scope"));
    assert!(should_ignore_target("tokio"));
    assert!(should_ignore_target("wry::webview"));
    assert!(!should_ignore_target("wry"));
    assert!(!should_ignore_target("soyuz_studio::state"));
    assert!(should_capture(TerminalLevel::Info, "soyuz_engine"));
    assert!(should_capture(TerminalLevel::Error, "soyuz_engine"));
    assert!(!should_capture(TerminalLevel::Debug, "soyuz_engine"));
    assert!(!should_capture(TerminalLevel::Warn, "hyper::client"));
}

#[test]
fn message_visitor_prefers_the_message_field() {
    let mut v = MessageVisitor::default();
    v.record_str("path", "/tmp/a.rhai");
    assert_eq!(v.message, "path: /tmp/a.rhai");
    v.record_str("other", "ignored");
    assert_eq!(v.message, "path: /tmp/a.rhai");
    v.record_debug("message", "\"hello\"");
    assert_eq!(v.message, "hello");
    v.record_str("message", "plain");
    assert_eq!(v.message, "plain");

    let mut w = MessageVisitor::default();
    w.record_debug("count", "3");
    assert_eq!(w.message, "count: 3");
    w.record_debug("message", "unquoted");
    assert_eq!(w.message, "unquoted");
}

#[test]
fn debug_time_is_formatted_in_utc() {
    assert_eq!(format_debug_time(50400, 7), "14:00:00.007Z");
    assert_eq!(format_debug_time(86399, 999), "23:59:59.999Z");
    assert_eq!(format_debug_time(86400 + 61, 120), "00:01:01.120Z");
    let now = debug_timestamp();
    assert_eq!(now.len(), 13);
    assert!(now.ends_with('Z'));
}

#[test]
fn entries_are_stamped_with_the_clock_reading() {
    let e = TerminalEntry::stamped(TerminalLevel::Info, "Test message".to_string(), None, Some(1_700_000_000));
    assert_eq!(e.timestamp_secs, 1_700_000_000);
    assert_eq!(e.message, "Test message");
    assert!(e.target.is_none());
    let before_epoch = TerminalEntry::stamped(TerminalLevel::Warn, "w".to_string(), Some("app".to_string()), None);
    assert_eq!(before_epoch.timestamp_secs, 0);
    assert_eq!(TerminalEntry::timestamp_from(Some(42)), 42);
    assert_eq!(TerminalEntry::timestamp_from(None), 0);
}
