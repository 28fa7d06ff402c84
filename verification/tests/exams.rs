use cufe_course::exams::{map_time_to_periods, parse_exam_json, parse_exam_time, try_parse_exam_json};
use cufe_course::models::CourseType;

#[test]
fn exam_time_split() {
    let (d, s, e) = parse_exam_time("2026-01-06(10:00-11:40)").unwrap();
    assert_eq!((d.as_str(), s.as_str(), e.as_str()), ("2026-01-06", "10:00", "11:40"));
    assert_eq!(parse_exam_time("2026-01-06").unwrap_err(), "考试时间格式错误，缺少括号: 2026-01-06");
    assert_eq!(parse_exam_time("2026-01-06(10:00").unwrap_err(), "考试时间格式错误，缺少右括号: 2026-01-06(10:00");
    assert_eq!(parse_exam_time("2026-01-06(10:00)").unwrap_err(), "考试时间范围格式错误: 10:00");
}

#[test]
fn exam_periods_from_times() {
    assert_eq!(map_time_to_periods("10:00", "11:40").unwrap(), vec![3, 4]);
    assert_eq!(map_time_to_periods("08:00", "09:40").unwrap(), vec![1, 2]);
    assert_eq!(map_time_to_periods("14:00", "15:40").unwrap(), vec![7, 8]);
    assert_eq!(map_time_to_periods("19:20", "21:00").unwrap(), vec![12, 13]);
    assert_eq!(map_time_to_periods("09:50", "11:30").unwrap(), vec![3, 3]);
    assert_eq!(map_time_to_periods("21:30", "07:00").unwrap(), vec![3, 4]);
    assert_eq!(map_time_to_periods("20:30", "20:30").unwrap(), vec![13, 12]);
}

#[test]
fn exam_list_read() {
    let json = r#"{"items":[
        {"kcmc":"微观经济学","kssj":"2026-01-06(10:00-11:40)","cdmc":"主教101","ksmc":"期末考试"},
        {"kssj":"2025-08-30(14:00-15:40)"}
    ]}"#;
    let exams = parse_exam_json(json, "2025-09-01").unwrap();
    assert_eq!(exams.len(), 2);
    assert_eq!(exams[0].name, "【考试】微观经济学");
    assert_eq!(exams[0].weeks, vec![19]);
    assert_eq!(exams[0].day_of_week, 2);
    assert_eq!(exams[0].periods, vec![3, 4]);
    assert_eq!(exams[0].location, "主教101");
    assert_eq!(exams[0].teacher, "");
    assert_eq!(exams[0].course_type, CourseType::Exam);
    let info = exams[0].exam_info.as_ref().unwrap();
    assert_eq!(info.date, "2026-01-06");
    assert_eq!(info.exam_name, "期末考试");
    assert_eq!(exams[1].name, "【考试】未知课程");
    assert_eq!(exams[1].weeks, vec![1]);
    assert_eq!(exams[1].day_of_week, 6);
    assert_eq!(exams[1].location, "未知地点");
    assert_eq!(exams[1].exam_info.as_ref().unwrap().exam_name, "考试");
}

#[test]
fn exam_list_errors() {
    assert!(parse_exam_json("{\"items\":[]}", "2025-09-01").unwrap().is_empty());
    assert!(parse_exam_json("{\"items\":[]}", "2025-13-01").unwrap_err().starts_with("解析学期开始日期失败: "));
    assert_eq!(parse_exam_json("{}", "2025-09-01").unwrap_err(), "JSON 中缺少 items 数组");
    assert_eq!(
        parse_exam_json("{\"items\":[{\"kssj\":\"2026-01-06(10:00-11:40)\"},{\"kcmc\":\"x\"}]}", "2025-09-01").unwrap_err(),
        "考试 2 缺少考试时间字段"
    );
    assert!(parse_exam_json("{\"items\":[{\"kssj\":\"2026-02-30(10:00-11:40)\"}]}", "2025-09-01")
        .unwrap_err()
        .starts_with("解析考试日期失败: "));
    assert!(try_parse_exam_json("{\"items\":[{\"kssj\":\"2026)01(06\"}]}", "2025-09-01").is_none());
    assert!(try_parse_exam_json("{\"items\":[]}", "2025-09-01").is_some());
}
