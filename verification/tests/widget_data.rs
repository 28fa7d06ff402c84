use cufe_course::models::{AppConfig, CachedSchedule, Course, CourseType, PeriodTime, TimeTable};
use cufe_course::widget::{
    format_location, get_course_time_string, get_day_name, get_widget_data, get_widget_data_at,
    sort_widget_courses,
    WidgetCourseInfo,
};

fn config() -> AppConfig {
    AppConfig {
        first_day: None,
        end_week: Some(18),
        max_periods: None,
        simplified_location: Some(true),
        current_schedule_id: Some("s1".to_string()),
        period_times: None,
        time_tables: None,
        edu_systems: None,
        edu_system_url: None,
        last_edu_system_id: None,
        background_image: None,
        background_original: None,
    }
}

fn course(name: &str, day: i32, periods: Vec<i32>, weeks: Vec<i32>, kind: CourseType) -> Course {
    Course {
        name: name.to_string(),
        teacher: "t".to_string(),
        weeks,
        week_type: 0,
        day_of_week: day,
        periods,
        location: "沙河校区主教101".to_string(),
        course_type: kind,
        exam_info: None,
    }
}

fn schedule(courses: Vec<Course>) -> CachedSchedule {
    CachedSchedule {
        id: "s1".to_string(),
        name: "课表".to_string(),
        courses,
        timestamp: 0,
        expire_time: 0,
        first_day: Some(1_756_656_000), // 2025-09-01 00:00 at UTC+8
        max_periods: None,
        weeks_count: None,
        time_table_id: None,
        sort_index: None,
        school_year: None,
        school_term: None,
    }
}

fn info(name: &str, day: i32, start: i32) -> WidgetCourseInfo {
    WidgetCourseInfo {
        name: name.to_string(),
        location: String::new(),
        start_time: String::new(),
        end_time: String::new(),
        day_of_week: day,
        weeks: vec![],
        week_type: 0,
        period_start: start,
        period_end: start,
    }
}

#[test]
fn day_names_and_locations() {
    assert_eq!(get_day_name(1), "星期一");
    assert_eq!(get_day_name(7), "星期日");
    assert_eq!(get_day_name(0), "");
    assert_eq!(format_location("沙河校区主教101", true), "主教101");
    assert_eq!(format_location(" 学院南路校区 学术会堂 ", true), "学术会堂");
    assert_eq!(format_location("沙河校区主教101", false), "沙河校区主教101");
}

#[test]
fn course_times_from_table() {
    let table = vec![
        PeriodTime { start: "8:00".to_string(), end: "8:45".to_string() },
        PeriodTime { start: "8:55".to_string(), end: "9:40".to_string() },
    ];
    let c = course("A", 1, vec![1, 2], vec![1], CourseType::Regular);
    let (s, e) = get_course_time_string(&c, &table);
    assert_eq!((s.as_str(), e.as_str()), ("8:00", "9:40"));
    let c = course("A", 1, vec![0, 5], vec![1], CourseType::Regular);
    let (s, e) = get_course_time_string(&c, &table);
    assert_eq!((s.as_str(), e.as_str()), ("", ""));
}

#[test]
fn widget_sort_is_stable() {
    let v = vec![info("c", 2, 3), info("a", 1, 5), info("b", 2, 3), info("d", 1, 1)];
    let sorted = sort_widget_courses(v);
    let names: Vec<&str> = sorted.iter().map(|c| c.name.as_str()).collect();
    assert_eq!(names, vec!["d", "a", "c", "b"]);
}

#[test]
fn widget_without_schedule() {
    // 2025-09-03 02:00 UTC = 10:00 at UTC+8, a Wednesday
    let now = 1_756_864_800;
    let d = get_widget_data_at(now, &config(), None).unwrap();
    assert_eq!(d.schema_version, 2);
    assert_eq!(d.current_date, "9月3日");
    assert_eq!(d.current_day_of_week, 3);
    assert_eq!(d.day_name, "星期三");
    assert_eq!(d.current_week, 1);
    assert!(d.courses.is_empty());
    assert!(d.is_empty);
    assert_eq!(d.message.as_deref(), Some("课程结束啦 🎉"));
}

#[test]
fn widget_with_schedule() {
    let now = 1_756_864_800 + 7 * 24 * 3600; // Wednesday of week 2
    let s = schedule(vec![
        course("B", 3, vec![3, 4], vec![2, 3], CourseType::Regular),
        course("A", 3, vec![1, 2], vec![1], CourseType::Regular),
        course("【考试】X", 3, vec![1, 2], vec![2], CourseType::Exam),
    ]);
    let d = get_widget_data_at(now, &config(), Some(&s)).unwrap();
    assert_eq!(d.current_week, 2);
    assert_eq!(d.first_day, Some(1_756_656_000));
    assert_eq!(d.weeks_count, Some(18));
    assert_eq!(d.courses.len(), 2);
    assert_eq!(d.courses[0].name, "A");
    assert_eq!(d.courses[0].start_time, "8:00");
    assert_eq!(d.courses[0].end_time, "9:40");
    assert_eq!(d.courses[1].name, "B");
    assert_eq!(d.courses[1].location, "主教101");
    assert!(!d.is_empty);
    assert!(d.message.is_none());
}

#[test]
fn widget_uses_named_time_table() {
    let mut cfg = config();
    cfg.time_tables = Some(vec![
        TimeTable { id: "t0".to_string(), name: "x".to_string(), periods: vec![PeriodTime { start: "7:00".to_string(), end: "7:40".to_string() }] },
        TimeTable { id: "t1".to_string(), name: "y".to_string(), periods: vec![PeriodTime { start: "9:00".to_string(), end: "9:40".to_string() }] },
    ]);
    let mut s = schedule(vec![course("A", 1, vec![1], vec![30], CourseType::Regular)]);
    s.time_table_id = Some("t1".to_string());
    let d = get_widget_data_at(1_756_864_800, &cfg, Some(&s)).unwrap();
    assert_eq!(d.courses[0].start_time, "9:00");
    assert!(d.is_empty);
    s.time_table_id = None;
    let d = get_widget_data_at(1_756_864_800, &cfg, Some(&s)).unwrap();
    assert_eq!(d.courses[0].start_time, "7:00");
}

#[test]
fn widget_from_the_clock() {
    let mut cfg = config();
    cfg.first_day = Some(0);
    cfg.end_week = None;
    let d = get_widget_data(&cfg, None).unwrap();
    assert!(d.current_week > 2800);
    assert!(d.generated_at > 1_700_000_000);
    assert!((1..=7).contains(&d.current_day_of_week));
    assert!(d.is_empty);
    assert_eq!(d.message.as_deref(), Some("课程结束啦 🎉"));
}
