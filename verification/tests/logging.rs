use tuya_meter::calendar::civil_from_days;
use tuya_meter::config::LogConfig;
use tuya_meter::logfile::{
    checked_interval, checked_utc_offset_secs, format_log_path, local_time_fits,
    local_utc_offset_secs, parse_interval,
};
use tuya_meter::logger::{is_dated, rotate, FileStep, JsonlLogger, LogAction, LogEvent};

const NOW: u64 = 1712678400;

fn config(file: &str, max_lines: Option<u64>, interval: Option<&str>) -> LogConfig {
    LogConfig {
        file: file.to_string(),
        max_lines,
        rotate_interval: interval.map(|s| s.to_string()),
    }
}

fn opened(cfg: &LogConfig, lines: Option<u64>) -> JsonlLogger {
    let mut logger = JsonlLogger::new(cfg, NOW, 10800).unwrap();
    logger.counted(lines);
    logger.opened();
    logger
}

#[test]
fn intervals_with_units() {
    assert_eq!(parse_interval("5h").unwrap(), 18000);
    assert_eq!(parse_interval("30m").unwrap(), 1800);
    assert_eq!(parse_interval("1d").unwrap(), 86400);
    assert_eq!(parse_interval("3600s").unwrap(), 3600);
    assert_eq!(parse_interval(" 90 ").unwrap(), 90);
    assert_eq!(parse_interval("+2m").unwrap(), 120);
}

#[test]
fn intervals_that_are_none() {
    assert_eq!(parse_interval("  ").unwrap_err().message(), "empty interval");
    assert_eq!(
        parse_interval("h").unwrap_err().message(),
        "bad interval 'h': cannot parse integer from empty string"
    );
    assert_eq!(
        parse_interval(" 1.5h").unwrap_err().message(),
        "bad interval '1.5h': invalid digit found in string"
    );
    assert_eq!(
        parse_interval("99999999999999999999s").unwrap_err().message(),
        "bad interval '99999999999999999999s': number too large to fit in target type"
    );
    assert!(checked_interval("18446744073709551615d").is_none());
    assert_eq!(checked_interval("18446744073709551615").unwrap().unwrap(), u64::MAX);
}

#[test]
fn dates_of_days() {
    assert_eq!(civil_from_days(0), (1970, 1, 1));
    assert_eq!(civil_from_days(-1), (1969, 12, 31));
    assert_eq!(civil_from_days(19822), (2024, 4, 9));
    assert_eq!(civil_from_days(11016), (2000, 2, 29));
    assert_eq!(civil_from_days(-25509), (1900, 2, 28));
    assert_eq!(civil_from_days(-25508), (1900, 3, 1));
    assert_eq!(civil_from_days(-719528), (0, 1, 1));
    assert_eq!(civil_from_days(-719529), (-1, 12, 31));
}

#[test]
fn names_with_dates() {
    assert_eq!(
        format_log_path("meter_%Y-%m-%d_%H%M%S.jsonl", NOW, 0),
        "meter_2024-04-09_160000.jsonl"
    );
    assert_eq!(format_log_path("%Y-%m-%d", NOW, 10800 * 3), "2024-04-10");
    assert_eq!(format_log_path("100%% %q %", NOW, 0), "100% %q %");
    assert_eq!(format_log_path("plain.jsonl", NOW, 0), "plain.jsonl");
    assert_eq!(format_log_path("%Y", 0, -86400 * 719529), "-001");
}

#[test]
fn a_new_name_at_midnight() {
    let at = |t: u64| format_log_path("meter_%Y-%m-%d.jsonl", t, 0);
    assert_eq!(at(1712620800), at(1712707199));
    assert_ne!(at(1712707199), at(1712707200));
}

#[test]
fn local_times_that_fit() {
    assert!(local_time_fits(NOW, 10800));
    assert!(!local_time_fits(i64::MAX as u64, 1));
}

#[test]
fn offsets_from_utc() {
    assert_eq!(local_utc_offset_secs("+0300\n"), 10800);
    assert_eq!(local_utc_offset_secs("-0330"), -12600);
    assert_eq!(local_utc_offset_secs("+0000"), 0);
    assert_eq!(local_utc_offset_secs("+03:00"), 0);
    assert_eq!(local_utc_offset_secs("+0x00"), 0);
    assert_eq!(local_utc_offset_secs("00+130"), 0);
    assert_eq!(local_utc_offset_secs("0+1+2"), 3720);
    assert_eq!(local_utc_offset_secs(""), 0);
    assert_eq!(checked_utc_offset_secs("\u{fffd}12"), None);
    assert_eq!(checked_utc_offset_secs("+\u{e9}00"), Some(0));
}

#[test]
fn a_rotation_keeps_three_files() {
    let steps: Vec<String> = rotate("log")
        .iter()
        .map(|s| match s {
            FileStep::Remove(p) => format!("rm {p}"),
            FileStep::Rename { from, to } => format!("mv {from} {to}"),
        })
        .collect();
    assert_eq!(steps, vec!["rm log.3", "mv log.2 log.3", "mv log.1 log.2", "mv log log.1"]);
}

#[test]
fn names_that_have_dates() {
    assert!(is_dated("a%Y"));
    assert!(is_dated("%"));
    assert!(!is_dated("plain"));
}

#[test]
fn a_new_logger() {
    let logger = JsonlLogger::new(&config("m_%H.jsonl", Some(5), Some("2h")), NOW, 10800).unwrap();
    assert_eq!(logger.path, "m_19.jsonl");
    assert!(logger.dated);
    assert_eq!(logger.tz_offset_secs, 10800);
    assert_eq!(logger.max_lines, Some(5));
    assert_eq!(logger.rotate_interval_secs, Some(7200));
    assert_eq!(logger.last_interval_n, NOW / 7200);
    assert!(!logger.open);
    let logger = JsonlLogger::new(&config("m.jsonl", None, None), NOW, 10800).unwrap();
    assert_eq!(logger.tz_offset_secs, 0);
    assert_eq!(logger.last_interval_n, 0);
}

#[test]
fn settings_that_a_logger_cannot_follow() {
    let bad = config("m", None, Some("soon"));
    assert_eq!(
        JsonlLogger::new(&bad, NOW, 0).unwrap_err().message(),
        "bad interval 'soon': invalid digit found in string"
    );
    assert!(JsonlLogger::checked_new(&config("m", None, Some("0s")), NOW, 0).is_none());
    assert!(JsonlLogger::checked_new(&config("m", None, Some("18446744073709551615d")), NOW, 0).is_none());
    assert!(JsonlLogger::checked_new(&config("m%d", None, None), i64::MAX as u64, 1).is_none());
}

#[test]
fn lines_are_counted_up_to_the_limit() {
    let mut logger = opened(&config("m", Some(2), None), None);
    for _ in 0..2 {
        assert!(matches!(logger.check_rotation(LogEvent::Line { now: NOW }), LogAction::Write));
        logger.written();
    }
    assert_eq!(logger.current_lines, 2);
    match logger.check_rotation(LogEvent::Line { now: NOW }) {
        LogAction::Rotate { plan } => assert_eq!(plan.len(), 4),
        other => panic!("{other:?}"),
    }
    assert_eq!(logger.current_lines, 0);
    assert!(!logger.open);
    assert!(matches!(logger.check_rotation(LogEvent::Rotated), LogAction::Write));
    logger.written();
    assert_eq!(logger.current_lines, 1);
    assert!(matches!(logger.check_rotation(LogEvent::Line { now: NOW }), LogAction::Write));
}

#[test]
fn an_interval_that_is_over_rotates_once() {
    let mut logger = opened(&config("m", None, Some("1h")), Some(7));
    assert!(matches!(logger.check_rotation(LogEvent::Line { now: NOW + 3599 }), LogAction::Write));
    assert!(matches!(
        logger.check_rotation(LogEvent::Line { now: NOW + 3600 }),
        LogAction::Rotate { .. }
    ));
    assert!(matches!(logger.check_rotation(LogEvent::Rotated), LogAction::Write));
    assert!(matches!(logger.check_rotation(LogEvent::Line { now: NOW + 3601 }), LogAction::Write));
}

#[test]
fn a_new_date_opens_a_new_file() {
    let mut logger = opened(&config("m_%d", Some(3), None), Some(2));
    assert_eq!(logger.path, "m_09");
    match logger.check_rotation(LogEvent::Line { now: NOW + 86400 }) {
        LogAction::Reopen { from } => assert_eq!(from, "m_09"),
        other => panic!("{other:?}"),
    }
    assert_eq!(logger.path, "m_10");
    assert!(!logger.open);
    logger.counted(Some(3));
    assert!(matches!(
        logger.check_rotation(LogEvent::Resumed { now: NOW + 86400 }),
        LogAction::Rotate { .. }
    ));
}

#[test]
fn lines_are_left_out_while_no_file_is_open() {
    let mut logger = JsonlLogger::new(&config("m", None, None), NOW, 0).unwrap();
    assert!(logger.can_work_at(NOW));
    assert!(matches!(logger.check_rotation(LogEvent::Line { now: NOW }), LogAction::Skip));
    logger.dated = true;
    logger.tz_offset_secs = i64::MAX;
    assert!(!logger.can_work_at(NOW));
    logger.dated = false;
    logger.rotate_interval_secs = Some(0);
    assert!(!logger.can_work_at(NOW));
}

#[test]
fn names_in_digits_sort_by_time() {
    let at = |t: u64| format_log_path("%Y%m%d%H%M%S", t, 0);
    let times = [0, 59, 60, 86399, 86400, 951782400, NOW, NOW + 1, 4102444800, 253402300799];
    for pair in times.windows(2) {
        let (a, b) = (at(pair[0]), at(pair[1]));
        assert!(a.as_bytes() < b.as_bytes(), "{a} {b}");
        assert!(a.len() == 14 && a.bytes().all(|c| c.is_ascii_digit()));
    }
    assert_eq!(at(NOW), "20240409160000");
    assert_eq!(at(253402300799), "99991231235959");
    assert_eq!(at(253402300800), "100000101000000");
}
