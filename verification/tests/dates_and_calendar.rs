use cufe_course::calendar::{is_valid_monday, lookup_with_fallback, parse_calendar_text, SemesterCalendar};
use cufe_course::schedules::{calculate_date, semester_start_text, try_calculate_date, calendar_cache_from};

const START_2025_09_01: i64 = 1_756_684_800;

#[test]
fn monday_check() {
    assert!(is_valid_monday("2024-08-26"));
    assert!(is_valid_monday("2026-02-16"));
    assert!(!is_valid_monday("2025-09-02"));
    assert!(!is_valid_monday("2025-02-30"));
    assert!(!is_valid_monday("not a date"));
}

#[test]
fn calendar_insert_and_overwrite() {
    let mut c = SemesterCalendar::new();
    assert!(c.is_empty());
    c.insert(2024, 1, "2024-08-26".to_string());
    c.insert(2024, 2, "2025-02-17".to_string());
    c.insert(2024, 1, "2024-09-02".to_string());
    c.insert(2025, 1, "2025-09-01".to_string());
    assert_eq!(c.len(), 2);
    assert_eq!(c.lookup(2024, 1).unwrap(), "2024-09-02");
    assert_eq!(c.lookup(2024, 2).unwrap(), "2025-02-17");
    assert_eq!(c.lookup(2025, 2), None);
}

#[test]
fn fallback_prefers_cache() {
    let cached = parse_calendar_text(r#"{ "2024": { "1": "2024-09-09" } }"#).unwrap();
    let builtin = parse_calendar_text(r#"{ "2024": { "1": "2024-08-26" }, "2025": { "1": "2025-09-01" } }"#).unwrap();
    assert_eq!(lookup_with_fallback(Some(&cached), &builtin, 2024, 1).unwrap(), "2024-09-09");
    assert_eq!(lookup_with_fallback(Some(&cached), &builtin, 2025, 1).unwrap(), "2025-09-01");
    assert_eq!(lookup_with_fallback(None, &builtin, 2024, 1).unwrap(), "2024-08-26");
    assert_eq!(lookup_with_fallback(None, &builtin, 1999, 1), None);
}

#[test]
fn calendar_cache_entry() {
    let c = calendar_cache_from(r#"{ "2025": { "2": "2026-02-16" } }"#, 42).unwrap();
    assert_eq!(c.fetched_at, 42);
    assert_eq!(c.calendar.lookup(2025, 2).unwrap(), "2026-02-16");
    assert!(calendar_cache_from("[]", 42).is_none());
}

#[test]
fn teaching_day_dates() {
    assert_eq!(calculate_date(START_2025_09_01, 1, 1).unwrap(), "9/1");
    assert_eq!(calculate_date(START_2025_09_01, 2, 3).unwrap(), "9/10");
    assert_eq!(calculate_date(START_2025_09_01, 18, 7).unwrap(), "1/4");
    assert_eq!(calculate_date(START_2025_09_01, 0, 1).unwrap_err(), "目标周次必须大于 0");
    assert_eq!(calculate_date(START_2025_09_01, 1, 8).unwrap_err(), "目标星期必须在 1 到 7 之间");
    assert_eq!(calculate_date(i64::MAX, 1, 1).unwrap_err(), "无效的学期开始时间戳");
    assert!(try_calculate_date(START_2025_09_01, i32::MAX, 1).is_none());
    assert_eq!(try_calculate_date(START_2025_09_01, 1, 2).unwrap().unwrap(), "9/2");
}

#[test]
fn semester_start_rendering() {
    assert_eq!(semester_start_text(START_2025_09_01).unwrap(), "2025-09-01");
    assert_eq!(semester_start_text(i64::MAX).unwrap_err(), "无效的学期开始日期");
}

#[test]
fn calendar_entries_list_everything() {
    let mut c = SemesterCalendar::new();
    c.insert(2024, 1, "2024-08-26".to_string());
    c.insert(2025, 2, "2026-03-02".to_string());
    c.insert(2024, 2, "2025-02-17".to_string());
    let mut e = c.entries();
    e.sort();
    assert_eq!(
        e,
        vec![
            (2024, 1, "2024-08-26".to_string()),
            (2024, 2, "2025-02-17".to_string()),
            (2025, 2, "2026-03-02".to_string()),
        ]
    );
    assert!(SemesterCalendar::new().entries().is_empty());
}

#[test]
fn earliest_representable_first_day() {
    assert_eq!(calculate_date(0, 2, 3).unwrap(), "1/10");
    // The day before chrono's earliest date is refused.
    assert_eq!(calculate_date(-8_334_601_315_200, 1, 2).unwrap_err(), "无效的学期开始时间戳");
    assert_eq!(calculate_date(-8_334_601_228_801, 1, 1).unwrap_err(), "无效的学期开始时间戳");
    // chrono's earliest date is 1 January of year -262143.
    assert_eq!(calculate_date(-8_334_601_228_800, 1, 1).unwrap(), "1/1");
    assert_eq!(semester_start_text(-8_334_601_228_801).unwrap_err(), "无效的学期开始日期");
    assert!(semester_start_text(-8_334_601_228_800).unwrap().ends_with("-01-01"));
}
