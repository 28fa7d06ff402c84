use cufe_course::diff::calculate_schedule_diff;
use cufe_course::models::{Course, CourseType, ScheduleDiff};

fn course(name: &str, day: i32, periods: Vec<i32>, teacher: &str, kind: CourseType) -> Course {
    Course {
        name: name.to_string(),
        teacher: teacher.to_string(),
        weeks: vec![1, 2, 3],
        week_type: 0,
        day_of_week: day,
        periods,
        location: "主教101".to_string(),
        course_type: kind,
        exam_info: None,
    }
}

#[test]
fn diff_with_itself_is_unchanged() {
    let s = vec![
        course("A", 1, vec![1, 2], "t", CourseType::Regular),
        course("B", 2, vec![3, 4], "t", CourseType::Regular),
        course("A", 1, vec![1, 2], "u", CourseType::Regular),
    ];
    let d = calculate_schedule_diff(&s, &s);
    assert_eq!(d, ScheduleDiff { added_count: 0, removed_count: 0, modified_count: 0, unchanged_count: 3 });
}

#[test]
fn diff_counts_added_removed_modified() {
    let old = vec![
        course("A", 1, vec![1, 2], "t", CourseType::Regular),
        course("B", 2, vec![3, 4], "t", CourseType::Regular),
        course("C", 3, vec![5], "t", CourseType::Regular),
        course("【考试】X", 4, vec![3, 4], "", CourseType::Exam),
    ];
    let new = vec![
        course("A", 1, vec![1, 2], "t", CourseType::Regular),
        course("B", 2, vec![3, 4], "other", CourseType::Regular),
        course("D", 5, vec![1], "t", CourseType::Regular),
        course("A", 1, vec![1, 3], "t", CourseType::Regular),
    ];
    let d = calculate_schedule_diff(&old, &new);
    assert_eq!(d.added_count, 2);
    assert_eq!(d.modified_count, 1);
    assert_eq!(d.removed_count, 1);
    assert_eq!(d.unchanged_count, 1);
    assert_eq!(d.added_count + d.modified_count + d.unchanged_count, new.len());
}

#[test]
fn diff_uses_last_course_of_a_key() {
    let old = vec![
        course("A", 1, vec![1], "t1", CourseType::Regular),
        course("A", 1, vec![1], "t2", CourseType::Regular),
    ];
    let new = vec![course("A", 1, vec![1], "t2", CourseType::Regular)];
    let d = calculate_schedule_diff(&old, &new);
    assert_eq!(d, ScheduleDiff { added_count: 0, removed_count: 0, modified_count: 0, unchanged_count: 1 });
    let new2 = vec![course("A", 1, vec![1], "t1", CourseType::Regular)];
    assert_eq!(calculate_schedule_diff(&old, &new2).modified_count, 1);
}

#[test]
fn vanished_exam_not_removed() {
    let old = vec![course("A", 1, vec![1, 2], "t", CourseType::Regular), course("B", 2, vec![3], "t", CourseType::Regular)];
    let new = vec![course("A", 1, vec![1, 2], "u", CourseType::Regular), course("C", 3, vec![5], "t", CourseType::Regular)];
    let mut with_exam: Vec<Course> = old.iter().map(|c| c.duplicate()).collect();
    with_exam.push(course("期末", 5, vec![1, 2], "", CourseType::Exam));
    assert_eq!(calculate_schedule_diff(&with_exam, &new), calculate_schedule_diff(&old, &new));
}

#[test]
fn diff_swapped() {
    let old = vec![course("A", 1, vec![1, 2], "t", CourseType::Regular), course("B", 2, vec![3], "t", CourseType::Regular)];
    let new = vec![
        course("A", 1, vec![1, 2], "u", CourseType::Regular),
        course("C", 3, vec![5], "t", CourseType::Regular),
        course("D", 4, vec![6], "t", CourseType::Regular),
    ];
    let there = calculate_schedule_diff(&old, &new);
    let back = calculate_schedule_diff(&new, &old);
    assert_eq!(there.added_count, 2);
    assert_eq!(back.removed_count, 2);
    assert_eq!(there.modified_count, 1);
    assert_eq!(back.modified_count, 1);
}
