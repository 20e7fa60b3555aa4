use maya_mcp::calendar::civil_from_days;
use maya_mcp::log::{
    appended, init, reopened, resolve_path, rotate_if_needed, timestamp, Logger, MAX_BYTES,
};

#[test]
fn days_have_their_dates() {
    assert_eq!(civil_from_days(0), (1970, 1, 1));
    assert_eq!(civil_from_days(-1), (1969, 12, 31));
    assert_eq!(civil_from_days(11_016), (2000, 2, 29));
    assert_eq!(civil_from_days(11_017), (2000, 3, 1));
    assert_eq!(civil_from_days(19_782), (2024, 2, 29));
    assert_eq!(civil_from_days(47_540), (2100, 2, 28));
    assert_eq!(civil_from_days(47_541), (2100, 3, 1));
    assert_eq!(civil_from_days(2_932_896), (9999, 12, 31));
    assert_eq!(civil_from_days(-719_468), (0, 3, 1));
    assert_eq!(civil_from_days(-719_528), (0, 1, 1));
    assert_eq!(civil_from_days(-719_529), (-1, 12, 31));
}

#[test]
fn days_follow_one_another() {
    let mut last = civil_from_days(-800_000);
    for z in -799_999..800_000 {
        let next = civil_from_days(z);
        assert!(next > last);
        last = next;
    }
}

#[test]
fn far_days_do_not_overflow() {
    let (_, m, d) = civil_from_days(i64::MIN);
    assert!((1..=12).contains(&m) && (1..=31).contains(&d));
    let (_, m, d) = civil_from_days(i64::MAX - 719_468);
    assert!((1..=12).contains(&m) && (1..=31).contains(&d));
}

#[test]
fn timestamps_show_the_offset() {
    assert_eq!(timestamp(Some(0), 8), "1970-01-01 08:00:00");
    assert_eq!(timestamp(Some(1_709_164_799), 0), "2024-02-28 23:59:59");
    assert_eq!(timestamp(Some(1_709_164_799), 8), "2024-02-29 07:59:59");
    assert_eq!(timestamp(Some(0), -1), "1969-12-31 23:00:00");
    assert_eq!(timestamp(Some(253_402_300_799), 0), "9999-12-31 23:59:59");
    assert_eq!(timestamp(Some(253_402_300_799), 0).len(), 19);
}

#[test]
fn a_clock_beyond_63_bits_wraps_round() {
    assert_eq!(timestamp(Some(u64::MAX), 0), "1969-12-31 23:59:59");
    assert_eq!(timestamp(Some(u64::MAX), 8), "1970-01-01 07:59:59");
}

#[test]
fn a_clock_before_1970_shows_the_start() {
    assert_eq!(timestamp(None, 8), "1970-01-01 00:00:00");
}

#[test]
fn years_are_padded_to_four_characters() {
    assert_eq!(timestamp(Some(0), -719_528 * 24), "0000-01-01 00:00:00");
    assert_eq!(timestamp(Some(0), -719_893 * 24), "-001-01-01 00:00:00");
    assert_eq!(timestamp(Some(253_402_300_800), 0), "10000-01-01 00:00:00");
}

#[test]
fn log_path_prefers_the_setting() {
    let path = resolve_path(Some("/tmp/a.log".to_string()), Some("C:\\Local".to_string()));
    assert_eq!(path, vec!["/tmp/a.log"]);
}

#[test]
fn log_path_ignores_a_blank_setting() {
    let path = resolve_path(Some(" \t\u{3000}".to_string()), Some("C:\\Local".to_string()));
    assert_eq!(path, vec!["C:\\Local", "maya_mcp", "maya_mcp.log"]);
    let path = resolve_path(Some(String::new()), None);
    assert_eq!(path, vec![".", "maya_mcp.log"]);
    assert_eq!(resolve_path(None, None), vec![".", "maya_mcp.log"]);
}

#[test]
fn log_path_keeps_the_setting_as_it_is() {
    assert_eq!(resolve_path(Some(" x ".to_string()), None), vec![" x "]);
}

#[test]
fn logging_starts_once() {
    let first = init(None, true, 0);
    assert!(first.open && first.written == 0);
    let again = init(Some(Logger { open: true, written: 7 }), false, 3);
    assert!(again.open && again.written == 7);
}

#[test]
fn lines_have_time_level_and_message() {
    let logger = init(None, true, 0);
    let line = maya_mcp::log::write(Some(&logger), "INFO", "server started", Some(0));
    assert_eq!(line.as_deref(), Some("[1970-01-01 08:00:00] [INFO] server started\n"));
}

#[test]
fn nothing_is_logged_without_an_open_file() {
    assert!(maya_mcp::log::write(None, "INFO", "x", Some(0)).is_none());
    let logger = init(None, false, 0);
    assert!(maya_mcp::log::write(Some(&logger), "INFO", "x", Some(0)).is_none());
}

#[test]
fn the_file_is_rotated_beyond_its_limit() {
    assert_eq!(MAX_BYTES, 5_242_880);
    let mut logger = init(None, true, 0);
    assert!(!rotate_if_needed(&mut logger, MAX_BYTES - 1));
    assert!(!rotate_if_needed(&mut logger, 1));
    assert_eq!(logger.written, MAX_BYTES);
    assert!(logger.open);
    assert!(rotate_if_needed(&mut logger, 1));
    assert_eq!(logger.written, 0);
    assert!(!logger.open);
    reopened(&mut logger, true);
    assert!(logger.open && logger.written == 0);
    assert!(!rotate_if_needed(&mut logger, 10));
    assert_eq!(logger.written, 10);
}

#[test]
fn what_the_file_held_counts() {
    let mut logger = init(None, true, 5_242_880);
    assert_eq!(logger.written, 5_242_880);
    let line = maya_mcp::log::write(Some(&logger), "INFO", "x", Some(0)).unwrap();
    assert!(appended(&mut logger, &line));
    assert!(logger.written == 0 && !logger.open);
    let mut logger = init(None, true, u64::MAX - 100);
    assert!(rotate_if_needed(&mut logger, 100));
    assert_eq!(logger.written, 0);
}

#[test]
fn lines_count_by_their_bytes() {
    let mut logger = init(None, true, 0);
    assert!(!appended(&mut logger, "日志\n"));
    assert_eq!(logger.written, 7);
}

#[test]
fn without_a_logger_the_clock_does_not_matter() {
    assert!(maya_mcp::log::write(None, "INFO", "x", Some(i64::MAX as u64)).is_none());
}
