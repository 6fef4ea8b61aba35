use yawc::logging::{level_color, level_injection, level_name, FieldVisitor, LogLevel, SimpleSubscriber};

#[test]
fn injection_pads_short_levels() {
    assert_eq!(level_injection(LogLevel::Info), "\x1b[32m[INFO] \x1b[0m");
    assert_eq!(level_injection(LogLevel::Debug), "\x1b[34m[DEBUG]\x1b[0m");
}

#[test]
fn event_line_layout() {
    let mut v = FieldVisitor::new();
    v.record_debug("message", "hello".to_string());
    v.record_debug("answer", "42".to_string());
    let line = SimpleSubscriber.event_line(LogLevel::Warn, "yawc", v);
    assert_eq!(line, "\x1b[33m[WARN] \x1b[0m yawc: hello answer=42");
}

#[test]
fn levels_and_colors() {
    let s = SimpleSubscriber;
    assert!(!s.enabled(LogLevel::Trace));
    assert!(s.enabled(LogLevel::Debug));
    assert!(s.enabled(LogLevel::Error));
    assert_eq!(s.new_span(), 1);
    assert_eq!(level_color(LogLevel::Trace), "\x1b[94m");
    assert_eq!(level_name(LogLevel::Warn), "WARN");
    assert_eq!(level_injection(LogLevel::Trace), "\x1b[94m[TRACE]\x1b[0m");
    assert_eq!(level_injection(LogLevel::Error), format!("\x1b[31m{:<7}\x1b[0m", "[ERROR]"));
}

#[test]
fn event_without_message() {
    let mut v = FieldVisitor::new();
    v.record_debug("a", "1".to_string());
    v.record_debug("b", "\"x\"".to_string());
    let line = SimpleSubscriber.event_line(LogLevel::Info, "t", v);
    assert_eq!(line, "\x1b[32m[INFO] \x1b[0m t:  a=1 b=\"x\"");
}
