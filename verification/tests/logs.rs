use terracotta::logs::{level_color, target_label, LogLevel};

#[test]
fn level_colors() {
    assert_eq!(level_color(LogLevel::Info), "\x1b[34;1m");
    assert_eq!(level_color(LogLevel::Warn), "\x1b[33;1m");
    assert_eq!(level_color(LogLevel::Error), "\x1b[31;1m");
    assert_eq!(level_color(LogLevel::Debug), "\x1b[32;1m");
    assert_eq!(level_color(LogLevel::Trace), "\x1b[35;1m");
}

#[test]
fn target_labels() {
    assert_eq!(target_label("terracotta::server"), "server");
    assert_eq!(target_label("terracotta"), "terracotta");
    assert_eq!(target_label("b::a::c"), "a");
    assert_eq!(target_label("x::"), "");
    assert_eq!(target_label(""), "");
    assert_eq!(target_label("a:::b"), ":b");
    assert_eq!(target_label("zz::z"), "z");
}

