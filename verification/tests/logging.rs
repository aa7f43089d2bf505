use meridian::logging::{enabled, reaches_file, LogLevel, LogRing, RING_CAPACITY};

#[test]
fn levels_order_most_severe_first() {
    assert!(LogLevel::Error < LogLevel::Warn);
    assert!(LogLevel::Warn < LogLevel::Info);
    assert!(LogLevel::Info < LogLevel::Debug);
    assert!(LogLevel::Debug < LogLevel::Trace);
}

#[test]
fn ring_is_bounded() {
    let mut ring = LogRing::new(RING_CAPACITY);
    for i in 0..(RING_CAPACITY + 50) {
        ring.push(format!("flood {i}"));
    }
    assert!(ring.recent_lines().len() <= RING_CAPACITY);
}

#[test]
fn ring_keeps_the_newest_lines_in_order() {
    let mut ring = LogRing::new(3);
    for i in 0..5 {
        ring.push(format!("line {i}"));
    }
    assert_eq!(ring.recent_lines(), vec!["line 2", "line 3", "line 4"]);
    assert_eq!(ring.len(), 3);
    let mut tiny = LogRing::new(0);
    tiny.push("a".to_string());
    tiny.push("b".to_string());
    assert_eq!(tiny.recent_lines(), vec!["b"]);
}

#[test]
fn level_filter_and_file_routing() {
    assert!(enabled(LogLevel::Warn, LogLevel::Info.rank()));
    assert!(!enabled(LogLevel::Debug, LogLevel::Info.rank()));
    assert!(reaches_file(LogLevel::Info));
    assert!(!reaches_file(LogLevel::Debug));
    assert_eq!(LogLevel::from_env("WARNING"), Some(LogLevel::Warn));
    assert_eq!(LogLevel::from_env("Trace"), Some(LogLevel::Trace));
    assert_eq!(LogLevel::from_env("loud"), None);
    assert_eq!(LogLevel::Warn.label(), "WARN ");
}

use meridian::logging::{
    crash_report_lines, longer_than, panic_location, resolve_max_level, writer_step, CrashReportConfig,
    FileLogConfig, WriterEvent, WriterStep, UNSET_LEVEL,
};

#[test]
fn file_names_and_retention() {
    let config = FileLogConfig::new("game".to_string());
    assert_eq!(config.log_file_name(1700000000), "game-1700000000.log");
    assert!(config.is_managed_log("game-12.log"));
    assert!(!config.is_managed_log("game.log"));
    assert!(!config.is_managed_log("other-12.log"));
    assert!(!config.is_managed_log("game-12.txt"));
    assert_eq!(config.retention_secs(), 7 * 86400);
    assert_eq!(config.flush_every_ms(), 500);
    assert!(longer_than(10, 1, 10));
    assert!(!longer_than(10, 0, 10));
    let crash = CrashReportConfig::new("game".to_string());
    assert_eq!(crash.report_file_name(0), "crash-game-0.txt");
}

#[test]
fn writer_flushes_errors_at_once() {
    let s = writer_step(false, WriterEvent::Line(LogLevel::Error));
    assert!(s.write_line && s.flush && !s.dirty);
    let s = writer_step(false, WriterEvent::Line(LogLevel::Info));
    assert!(s.write_line && !s.flush && s.dirty);
    let s = writer_step(true, WriterEvent::Idle { cleanup_due: true });
    assert_eq!(
        s,
        WriterStep { write_line: false, flush: true, acknowledge: false, clean_up: true, stop: false, dirty: false }
    );
    assert!(writer_step(true, WriterEvent::FlushRequest).acknowledge);
    assert!(writer_step(false, WriterEvent::Closed).stop);
}

#[test]
fn max_level_resolution() {
    assert_eq!(resolve_max_level(1, Some("trace")), 1);
    assert_eq!(resolve_max_level(UNSET_LEVEL, Some("DEBUG")), 3);
    assert_eq!(resolve_max_level(UNSET_LEVEL, Some("nonsense")), 2);
    assert_eq!(resolve_max_level(UNSET_LEVEL, None), 2);
}

#[test]
fn crash_report_layout() {
    assert_eq!(panic_location(Some(("src/main.rs", 12, 5))), "src/main.rs:12:5");
    assert_eq!(panic_location(None), "<unknown location>");
    let config = CrashReportConfig::new("demo".to_string());
    let lines = crash_report_lines(&config, 42, "linux", "x86_64", "boom", "a.rs:1:2", "<frames>", &vec!["x".to_string()]);
    assert_eq!(lines[0], "==== Meridian Engine crash report ====");
    assert_eq!(lines[1], "app:       demo");
    assert_eq!(lines[2], "time:      42 (unix seconds)");
    assert_eq!(lines[3], "platform:  linux / x86_64");
    assert_eq!(lines[5], "panic:     boom");
    assert_eq!(lines[6], "location:  a.rs:1:2");
    assert_eq!(lines[9], "<frames>");
    assert_eq!(lines[11], "---- recent log (oldest first) ----");
    assert_eq!(lines[12], "x");
    assert_eq!(lines.len(), 13);
}

#[test]
fn writer_run_flushes_every_line_before_acknowledging() {
    let events = [
        WriterEvent::Line(LogLevel::Info),
        WriterEvent::Line(LogLevel::Warn),
        WriterEvent::FlushRequest,
        WriterEvent::Line(LogLevel::Debug),
        WriterEvent::Idle { cleanup_due: false },
        WriterEvent::Idle { cleanup_due: false },
        WriterEvent::Line(LogLevel::Info),
        WriterEvent::Closed,
    ];
    let mut dirty = false;
    let mut flushes = Vec::new();
    for event in events {
        let step = writer_step(dirty, event);
        if step.acknowledge {
            assert!(step.flush);
        }
        flushes.push(step.flush);
        dirty = step.dirty;
        if step.stop {
            break;
        }
    }
    assert_eq!(flushes, vec![false, false, true, false, true, false, false, true]);
}
