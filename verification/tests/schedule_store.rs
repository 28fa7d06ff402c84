use cufe_course::models::{Course, CourseType};
use cufe_course::schedules::{
    exam_query, import_exams, merge_exams, merge_updated_courses, new_cached_schedule, next_sort_index, sort_index_for,
    SCHEDULE_LIFETIME_SECS,
};

fn course(name: &str, kind: CourseType) -> Course {
    Course {
        name: name.to_string(),
        teacher: String::new(),
        weeks: vec![1],
        week_type: 0,
        day_of_week: 1,
        periods: vec![1],
        location: String::new(),
        course_type: kind,
        exam_info: None,
    }
}

fn names(v: &[Course]) -> Vec<&str> {
    v.iter().map(|c| c.name.as_str()).collect()
}

#[test]
fn sort_index_after_last() {
    assert_eq!(next_sort_index(&[]), 0);
    assert_eq!(next_sort_index(&[None, None]), 0);
    assert_eq!(next_sort_index(&[Some(3), None, Some(1)]), 4);
    assert_eq!(next_sort_index(&[Some(-5)]), -4);
}

#[test]
fn exams_merged_into_schedule() {
    let courses = vec![course("A", CourseType::Regular), course("old exam", CourseType::Exam), course("B", CourseType::Regular)];
    let exams = vec![course("new exam", CourseType::Exam)];
    assert_eq!(names(&merge_exams(&courses, &exams)), vec!["A", "B", "new exam"]);
    assert_eq!(names(&import_exams(&courses, &exams).unwrap()), vec!["A", "B", "new exam"]);
    assert_eq!(import_exams(&courses, &[]).unwrap_err(), "未查询到考试安排");
    let fetched = vec![course("C", CourseType::Regular)];
    assert_eq!(names(&merge_updated_courses(&courses, fetched)), vec!["old exam", "C"]);
}

#[test]
fn exam_query_requirements() {
    let (y, t, f) = exam_query(Some(2025), Some(1), Some(7)).unwrap();
    assert_eq!((y.as_str(), t, f), ("2025", 1, 7));
    assert_eq!(exam_query(None, Some(1), Some(7)).unwrap_err(), "课表缺少学年信息，请先编辑课表填写学年学期");
    assert_eq!(exam_query(Some(2025), None, Some(7)).unwrap_err(), "课表缺少学期信息，请先编辑课表填写学年学期");
    assert_eq!(exam_query(Some(2025), Some(2), None).unwrap_err(), "课表缺少学期开始日期，请先在课表编辑中填写「学期第一天」");
    assert_eq!(exam_query(Some(-3), Some(2), Some(0)).unwrap().0, "-3");
}

#[test]
fn exam_import_twice_is_import_once() {
    let courses = vec![course("A", CourseType::Regular), course("old exam", CourseType::Exam)];
    let exams = vec![course("E1", CourseType::Exam), course("E2", CourseType::Exam)];
    let once = import_exams(&courses, &exams).unwrap();
    let twice = import_exams(&once, &exams).unwrap();
    assert_eq!(names(&once), vec!["A", "E1", "E2"]);
    assert_eq!(names(&twice), names(&once));
}

#[test]
fn refresh_twice_keeps_exams() {
    let stored = vec![course("exam", CourseType::Exam), course("A", CourseType::Regular)];
    let once = merge_updated_courses(&stored, vec![course("B", CourseType::Regular)]);
    let twice = merge_updated_courses(&once, vec![course("C", CourseType::Regular)]);
    assert_eq!(names(&once), vec!["exam", "B"]);
    assert_eq!(names(&twice), vec!["exam", "C"]);
}

#[test]
fn stored_schedule_records() {
    assert_eq!(sort_index_for(Some(7), &[Some(9)]), 7);
    assert_eq!(sort_index_for(None, &[Some(9), None]), 10);
    assert_eq!(sort_index_for(None, &[]), 0);
    let s = new_cached_schedule(
        "id".to_string(),
        "名".to_string(),
        vec![course("A", CourseType::Regular)],
        1_000,
        Some(5),
        None,
        Some(18),
        Some("t".to_string()),
        Some(2),
        Some(2025),
        Some(1),
    );
    assert_eq!(SCHEDULE_LIFETIME_SECS, 30 * 24 * 60 * 60);
    assert_eq!((s.timestamp, s.expire_time), (1_000, 1_000 + 2_592_000));
    assert_eq!((s.first_day, s.weeks_count, s.sort_index, s.school_year, s.school_term), (Some(5), Some(18), Some(2), Some(2025), Some(1)));
    assert_eq!(names(&s.courses), vec!["A"]);
}
