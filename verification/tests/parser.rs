use cufe_course::courses::parse_cufe_json;
use cufe_course::weeks::parse_week_string;

#[test]
fn test_parse_week_string_normal() {
    let (weeks, wt) = parse_week_string("1-16周");
    assert_eq!(wt, 0);
    assert_eq!(weeks, (1..=16).collect::<Vec<_>>());
}

#[test]
fn test_parse_week_string_multi_range() {
    let (weeks, wt) = parse_week_string("4-5周,7-18周");
    assert_eq!(wt, 0);
    let mut expected: Vec<i32> = (4..=5).chain(7..=18).collect();
    expected.sort();
    expected.dedup();
    assert_eq!(weeks, expected);
}

#[test]
fn test_parse_week_string_discrete() {
    let (weeks, wt) = parse_week_string("2周,6周");
    assert_eq!(wt, 0);
    assert_eq!(weeks, vec![2, 6]);
}

#[test]
fn test_parse_week_string_odd_marker() {
    let (weeks, wt) = parse_week_string("1-15周(单)");
    assert_eq!(wt, 1);
    assert_eq!(weeks, vec![1, 3, 5, 7, 9, 11, 13, 15]);
}

#[test]
fn test_parse_week_string_even_marker() {
    let (weeks, wt) = parse_week_string("2-16周(双)");
    assert_eq!(wt, 2);
    assert_eq!(weeks, vec![2, 4, 6, 8, 10, 12, 14, 16]);
}

#[test]
fn test_parse_week_string_fullwidth_marker() {
    let (weeks, wt) = parse_week_string("1-15周（单）");
    assert_eq!(wt, 1);
    assert_eq!(weeks, vec![1, 3, 5, 7, 9, 11, 13, 15]);
}

#[test]
fn test_parse_cufe_json_with_odd_even_weeks() {
    let json = r#"{"kbList":[
        {"kcmc":"财务报表分析","xm":"卢钧","cdmc":"主教503","xqjmc":"星期一","jc":"3-5节","zcd":"1-16周","xslxbj":"★"},
        {"kcmc":"应用计量经济学","xm":"王凯","cdmc":"主教319","xqjmc":"星期五","jc":"3-5节","zcd":"1-15周(单)","xslxbj":"★"},
        {"kcmc":"应用计量经济学","xm":"王凯","cdmc":"实验楼404","xqjmc":"星期五","jc":"3-5节","zcd":"2-16周(双)","xslxbj":"○"}
    ]}"#;
    let courses = parse_cufe_json(json).expect("parse failed");
    assert_eq!(courses.len(), 3);

    assert_eq!(courses[0].name, "财务报表分析");
    assert_eq!(courses[0].week_type, 0);
    assert_eq!(courses[0].weeks.len(), 16);

    assert_eq!(courses[1].name, "应用计量经济学");
    assert_eq!(courses[1].week_type, 1);
    assert_eq!(courses[1].weeks, vec![1, 3, 5, 7, 9, 11, 13, 15]);
    assert_eq!(courses[1].location, "主教319");

    assert_eq!(courses[2].week_type, 2);
    assert_eq!(courses[2].weeks, vec![2, 4, 6, 8, 10, 12, 14, 16]);
    assert_eq!(courses[2].location, "实验楼404");
}
