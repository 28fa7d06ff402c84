use cufe_course::weeks::{keeps_week_exec, parse_period_string, parse_week_string};
use cufe_course::widget::{compute_current_week, is_week_in_ranges};
use cufe_course::schedules::{current_week_since, get_current_week};

#[test]
fn periods_range_single_and_default() {
    assert_eq!(parse_period_string("3-4节"), vec![3, 4]);
    assert_eq!(parse_period_string("9-11节"), vec![9, 10, 11]);
    assert_eq!(parse_period_string(" 5节 "), vec![5]);
    assert_eq!(parse_period_string("第一节"), vec![1, 2]);
    assert_eq!(parse_period_string("4-3节"), vec![1, 2]);
    assert_eq!(parse_period_string("1-2-3节"), vec![1, 2]);
}

#[test]
fn weeks_both_markers_mean_every_week() {
    let (weeks, wt) = parse_week_string("1-4周(单双)");
    assert_eq!(wt, 0);
    assert_eq!(weeks, vec![1, 2, 3, 4]);
    let (weeks, wt) = parse_week_string("1-6周(单),1-6周(双)");
    assert_eq!(wt, 0);
    assert_eq!(weeks, vec![1, 2, 3, 4, 5, 6]);
}

#[test]
fn weeks_malformed_parts_and_overlaps() {
    let (weeks, wt) = parse_week_string("");
    assert_eq!(wt, 0);
    assert!(weeks.is_empty());
    let (weeks, _) = parse_week_string("5-3周,x周, 7 周,3-5周,4周");
    assert_eq!(weeks, vec![3, 4, 5, 7]);
    let (weeks, wt) = parse_week_string("2-9周（双）");
    assert_eq!(wt, 2);
    assert_eq!(weeks, vec![2, 4, 6, 8]);
}

#[test]
fn week_filter_parity() {
    assert!(keeps_week_exec(1, 3));
    assert!(!keeps_week_exec(1, 4));
    assert!(!keeps_week_exec(1, -3));
    assert!(keeps_week_exec(2, 4));
    assert!(keeps_week_exec(0, 7));
    assert!(is_week_in_ranges(&[1, 3, 5], 1, 3));
    assert!(!is_week_in_ranges(&[1, 3, 5], 2, 3));
    assert!(!is_week_in_ranges(&[1, 3, 5], 0, 4));
}

#[test]
fn current_week_counts_and_clamps() {
    let start = 1_756_684_800; // 2025-09-01 00:00 UTC
    let week = 7 * 24 * 3600;
    assert_eq!(compute_current_week(start, Some(start), None), 1);
    assert_eq!(compute_current_week(start + 3 * week + 10, Some(start), None), 4);
    assert_eq!(compute_current_week(start + 30 * week, Some(start), Some(18)), 18);
    assert_eq!(compute_current_week(start - 3 * week, Some(start), Some(18)), 1);
    assert_eq!(compute_current_week(start + 30 * week, Some(start), Some(0)), 31);
    assert_eq!(compute_current_week(start, None, Some(18)), 1);
    assert_eq!(current_week_since(Some(start), start + 2 * week), 3);
    assert_eq!(current_week_since(Some(start), start - 10 * week), 1);
    assert_eq!(current_week_since(None, start), 1);
}

#[test]
fn current_week_from_the_clock() {
    assert_eq!(get_current_week(None), Some(1));
    // A semester that started at the epoch is thousands of weeks old now.
    assert!(get_current_week(Some(0)).unwrap() > 2800);
    // One that starts in the far future has not begun: week 1.
    assert_eq!(get_current_week(Some(4_000_000_000_000)), Some(1));
}
