use cufe_course::calendar::{lookup, lookup_with_fallback, parse_calendar_text, should_fetch, FETCH_INTERVAL_SECS};

#[test]
fn parse_valid_with_comment() {
    let text = r#"{
        "_comment": "维护说明",
        "2024": { "1": "2024-08-26", "2": "2025-02-17" },
        "2025": { "1": "2025-09-01" }
    }"#;
    let calendar = parse_calendar_text(text).unwrap();
    assert_eq!(lookup(&calendar, 2024, 1).unwrap(), "2024-08-26");
    assert_eq!(lookup(&calendar, 2024, 2).unwrap(), "2025-02-17");
    assert_eq!(lookup(&calendar, 2025, 1).unwrap(), "2025-09-01");
    assert_eq!(lookup(&calendar, 2025, 2), None);
    assert_eq!(lookup(&calendar, 2023, 1), None);
}

#[test]
fn parse_skips_invalid_entries() {
    let text = r#"{
        "_comment": "说明",
        "abcd": { "1": "2024-08-26" },
        "2024": { "3": "2024-08-26" },
        "2025": { "1": "2025-02-30", "2": "2025-09-02" },
        "2026": { "1": "2026-02-16" }
    }"#;
    let calendar = parse_calendar_text(text).unwrap();
    assert_eq!(calendar.len(), 1);
    assert_eq!(lookup(&calendar, 2026, 1).unwrap(), "2026-02-16");
    assert_eq!(lookup(&calendar, 2024, 3), None);
    assert_eq!(lookup(&calendar, 2025, 1), None);
    assert_eq!(lookup(&calendar, 2025, 2), None);
}

#[test]
fn parse_rejects_non_json() {
    assert!(parse_calendar_text("not json").is_none());
    assert!(parse_calendar_text("").is_none());
}

#[test]
fn parse_rejects_all_invalid() {
    let text = r#"{
        "_comment": "只有说明",
        "2024": { "3": "2024-08-26" },
        "2025": { "1": "2025-09-02" }
    }"#;
    assert!(parse_calendar_text(text).is_none());
}

#[test]
fn should_fetch_cases() {
    assert!(should_fetch(None, 1_000_000_000));
    assert!(!should_fetch(Some(1_000_000_000), 1_000_000_000 + FETCH_INTERVAL_SECS - 1));
    assert!(should_fetch(Some(1_000_000_000), 1_000_000_000 + FETCH_INTERVAL_SECS));
    assert!(!should_fetch(Some(1_000_000_000), 999_999_999));
}

#[test]
fn lookup_prefers_cached_over_builtin() {
    // The shipped calendar is handed in by the caller; this one stands in for it.
    let builtin = parse_calendar_text(r#"{ "2024": { "1": "2024-08-26" }, "2025": { "1": "2025-09-01" } }"#).unwrap();
    let cached_text = r#"{ "2024": { "1": "2024-09-09" } }"#;
    let cached = parse_calendar_text(cached_text).unwrap();
    assert_eq!(lookup_with_fallback(Some(&cached), &builtin, 2024, 1).unwrap(), "2024-09-09");
    let from_builtin = lookup(&builtin, 2025, 1).unwrap();
    assert_eq!(lookup_with_fallback(Some(&cached), &builtin, 2025, 1).unwrap(), from_builtin);
    assert_eq!(lookup_with_fallback(None, &builtin, 2025, 1).unwrap(), from_builtin);
    assert_eq!(lookup_with_fallback(None, &builtin, 1999, 1), None);
}
