//! Lines of the log.

use onec_export::logging::{LogLevel, Logger};

#[test]
fn parses_log_level() {
    assert_eq!(LogLevel::parse("DEBUG"), LogLevel::Debug);
    assert_eq!(LogLevel::parse("debug"), LogLevel::Debug);
    assert_eq!(LogLevel::parse("info"), LogLevel::Info);
    assert_eq!(LogLevel::parse("мусор"), LogLevel::Info);
    assert_eq!(LogLevel::parse(""), LogLevel::Info);
}

#[test]
fn levels_are_read_as_they_are_written() {
    for level in [LogLevel::Info, LogLevel::Debug] {
        assert_eq!(LogLevel::parse(level.as_str()), level);
    }
}

#[test]
fn steps_are_logged_at_the_level_of_debugging() {
    let mut log = Logger::new();
    assert_eq!(log.debug("шаг"), None);
    log.set_level(LogLevel::Debug);
    assert_eq!(log.level(), LogLevel::Debug);
    assert_eq!(log.debug("шаг").as_deref(), Some("[debug] шаг"));
    assert_eq!(Logger::log("14:00:00", "старт"), "[14:00:00] старт");
    assert_eq!(Logger::separator(), "=".repeat(60));
    assert_eq!(Logger::thin_separator(), "-".repeat(60));
}

#[test]
fn file_changes_with_the_day() {
    let mut log = Logger::new();
    assert_eq!(log.next_file("2026-06-02"), None);
    assert_eq!(log.init_file_named("gui", "2026-06-02".to_string()), "gui-2026-06-02.log");
    assert_eq!(log.next_file("2026-06-02"), None);
    assert_eq!(log.next_file("2026-06-03").as_deref(), Some("gui-2026-06-03.log"));
    log.file_begun("2026-06-03".to_string());
    assert_eq!(log.next_file("2026-06-03"), None);
    assert_eq!(log.init_file_in("2026-06-04".to_string()), "watch-2026-06-04.log");
}
