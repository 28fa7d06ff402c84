use cufe_course::courses::{parse_cufe_json, read_course_item, ScheduleTextError};
use cufe_course::session::is_session_expired_error;
use cufe_course::models::CourseType;

#[test]
fn course_list_defaults_and_cleaning() {
    let text = "\u{feff}\u{200b}  {\"kbList\":[{\"kcmc\":\"高等数学 ★○\",\"xqjmc\":\"星期日\"},{\"xqjmc\":\"周八\",\"jc\":\"7节\",\"zcd\":\"3周\"},{\"kcmc\":\"线性代数★ \"}]}  ";
    let courses = parse_cufe_json(text).unwrap();
    assert_eq!(courses.len(), 3);
    assert_eq!(courses[2].name, "线性代数★");
    assert_eq!(courses[0].name, "高等数学");
    assert_eq!(courses[0].teacher, "未指定");
    assert_eq!(courses[0].location, "未指定");
    assert_eq!(courses[0].day_of_week, 7);
    assert_eq!(courses[0].periods, vec![1, 2]);
    assert_eq!(courses[0].weeks, (1..=18).collect::<Vec<_>>());
    assert_eq!(courses[0].course_type, CourseType::Regular);
    assert!(courses[0].exam_info.is_none());
    assert_eq!(courses[1].name, "未知课程");
    assert_eq!(courses[1].day_of_week, 1);
    assert_eq!(courses[1].periods, vec![7]);
    assert_eq!(courses[1].weeks, vec![3]);
}

#[test]
fn course_list_errors() {
    assert!(matches!(parse_cufe_json("  <!DOCTYPE html><html></html>"), Err(ScheduleTextError::HtmlPage)));
    assert!(matches!(parse_cufe_json("<html>"), Err(ScheduleTextError::HtmlPage)));
    match parse_cufe_json("{not json") {
        Err(ScheduleTextError::InvalidJson { detail, text }) => {
            assert!(!detail.is_empty());
            assert_eq!(text, "{not json");
        }
        other => panic!("unexpected {:?}", other),
    }
    assert!(matches!(parse_cufe_json("{\"items\":[]}"), Err(ScheduleTextError::MissingCourseList)));
    assert!(matches!(parse_cufe_json("{\"kbList\":{}}"), Err(ScheduleTextError::MissingCourseList)));
    assert_eq!(parse_cufe_json("{\"kbList\":[]}").unwrap().len(), 0);
}

#[test]
fn course_list_error_messages() {
    let html = ScheduleTextError::HtmlPage.message();
    assert_eq!(html, "服务器返回了HTML页面而不是JSON，可能是登录已失效");
    assert!(is_session_expired_error(&html));
    assert_eq!(
        ScheduleTextError::MissingCourseList.message(),
        "JSON中未找到kbList字段，可能是API返回格式已变更"
    );
    let long: String = "课".repeat(120);
    let e = ScheduleTextError::InvalidJson { detail: "bad".to_string(), text: long };
    assert_eq!(e.message(), format!("解析JSON失败: bad\n实际内容前100字符: {}", "课".repeat(100)));
    let short = ScheduleTextError::InvalidJson { detail: "x".to_string(), text: "ab".to_string() };
    assert_eq!(short.message(), "解析JSON失败: x\n实际内容前100字符: ab");
}

#[test]
fn day_names_read_back() {
    let names = ["星期一", "星期二", "星期三", "星期四", "星期五", "星期六", "星期日"];
    for (i, n) in names.iter().enumerate() {
        let text = format!("{{\"kbList\":[{{\"xqjmc\":\"{}\"}}]}}", n);
        let cs = parse_cufe_json(&text).unwrap();
        assert_eq!(cs.len(), 1);
        assert_eq!(cs[0].day_of_week, i as i32 + 1);
    }
    assert_eq!(read_course_item("{\"xqjmc\":\"星期五\",\"xm\":\"王\"}").day_of_week, 5);
    assert_eq!(read_course_item("{\"xm\":\"王\"}").teacher, "王");
}
