//! The course list that the teaching system returns as JSON ("kbList"), read
//! into [`Course`]s.
use vstd::prelude::*;
use crate::text::{chars_of, starts_with, starts_with_exec, strip_leading, strip_leading_exec,
    string_of, trim, trim_exec,
};
use crate::json::{
    JsonNode, array_member, array_member_exec, json_node, parse_json_node, str_member,
    str_member_exec,
};
use crate::models::{Course, CourseType, CourseView};
use crate::widget::day_name;
use crate::weeks::{
    keeps_week, parse_period_string, parse_week_string, periods_of, strictly_increasing,
    week_listed, week_type_of,
};

verus! {

/// An owned copy of a string slice.
pub fn owned(s: &str) -> (r: String)
    ensures
        r@ == s@,
{
    s.to_owned()
}

/// The response text with surrounding whitespace, then leading byte-order
/// marks, then leading zero-width spaces removed.
pub open spec fn clean_response(text: Seq<char>) -> Seq<char> {
    strip_leading(strip_leading(trim(text), '\u{feff}'), '\u{200b}')
}

/// The response is an HTML page (the login has expired) rather than JSON.
pub open spec fn looks_like_html(text: Seq<char>) -> bool {
    starts_with(text, "<!DOCTYPE"@) || starts_with(text, "<html"@) || starts_with(text, "<HTML"@)
}

/// The day number (1 = Monday .. 7 = Sunday) of a day name "星期一" .. "星期日";
/// 1 for anything else.
pub open spec fn day_number(name: Seq<char>) -> i32 {
    if name == "星期一"@ {
        1
    } else if name == "星期二"@ {
        2
    } else if name == "星期三"@ {
        3
    } else if name == "星期四"@ {
        4
    } else if name == "星期五"@ {
        5
    } else if name == "星期六"@ {
        6
    } else if name == "星期日"@ {
        7
    } else {
        1
    }
}

/// A course-type symbol that the teaching system appends to course names.
pub open spec fn is_type_mark(c: char) -> bool {
    c == '★' || c == '○' || c == '◆' || c == '◇' || c == '●'
}

/// `s` with its trailing course-type symbols removed.
pub open spec fn strip_type_marks(s: Seq<char>) -> Seq<char>
    decreases s.len(),
{
    if s.len() > 0 && is_type_mark(s.last()) {
        strip_type_marks(s.drop_last())
    } else {
        s
    }
}

/// The string member `key` of the item, or `default`.
pub open spec fn str_member_or(item: Seq<char>, key: Seq<char>, default: Seq<char>) -> Seq<char> {
    match str_member(item, key) {
        Some(s) => s,
        None => default,
    }
}

/// The weeks `weeks` are those the week text `zcd` names (and its week type
/// keeps), sorted, each once: what [`parse_week_string`] yields.
pub open spec fn weeks_of(zcd: Seq<char>, weeks: Seq<i32>) -> bool {
    &&& strictly_increasing(weeks)
    &&& forall|w: i32| #[trigger]
        weeks.contains(w) <==> (week_listed(zcd, w as int) && keeps_week(
            week_type_of(zcd),
            w as int,
        ))
}

/// `c` is the course described by the JSON object text `item`: name "kcmc"
/// (default "未知课程") without trailing type symbols and trimmed, teacher
/// "xm" and classroom "cdmc" (default "未指定"), day "xqjmc" (default
/// "星期一"), periods "jc" (default "1-2节"), weeks "zcd" (default "1-18周").
pub open spec fn course_from_item(item: Seq<char>, c: CourseView) -> bool {
    let name = str_member_or(item, "kcmc"@, "未知课程"@);
    let teacher = str_member_or(item, "xm"@, "未指定"@);
    let classroom = str_member_or(item, "cdmc"@, "未指定"@);
    let day = str_member_or(item, "xqjmc"@, "星期一"@);
    let jc = str_member_or(item, "jc"@, "1-2节"@);
    let zcd = str_member_or(item, "zcd"@, "1-18周"@);
    &&& c.name == trim(strip_type_marks(name))
    &&& c.teacher == teacher
    &&& c.location == classroom
    &&& c.day_of_week == day_number(day)
    &&& c.periods == periods_of(jc)
    &&& c.week_type == week_type_of(zcd)
    &&& weeks_of(zcd, c.weeks)
    &&& c.course_type == CourseType::Regular
    &&& c.exam_info is None
}

/// Why a course-list response could not be read.
#[derive(Debug)]
pub enum ScheduleTextError {
    /// The server answered with an HTML page: the login has probably expired.
    HtmlPage,
    /// The response is not JSON: the parser's message and the cleaned text.
    InvalidJson { detail: String, text: String },
    /// The JSON has no "kbList" array: the response format has changed.
    MissingCourseList,
}

impl ScheduleTextError {
    /// The message the user is shown: for text that is not JSON, the parser's
    /// message and the first 100 characters of the cleaned text.
    pub open spec fn message_text(&self) -> Seq<char> {
        match self {
            ScheduleTextError::HtmlPage => "服务器返回了HTML页面而不是JSON，可能是登录已失效"@,
            ScheduleTextError::InvalidJson { detail, text } => "解析JSON失败: "@ + detail@
                + "\n实际内容前100字符: "@ + (if text@.len() > 100 {
                text@.take(100)
            } else {
                text@
            }),
            ScheduleTextError::MissingCourseList => "JSON中未找到kbList字段，可能是API返回格式已变更"@,
        }
    }

    /// The message the user is shown for this error.
    pub fn message(&self) -> (r: String)
        ensures
            r@ == self.message_text(),
    {
        match self {
            ScheduleTextError::HtmlPage => owned("服务器返回了HTML页面而不是JSON，可能是登录已失效"),
            ScheduleTextError::InvalidJson { detail, text } => {
                let mut out = chars_of("解析JSON失败: ");
                let mut d = chars_of(detail.as_str());
                out.append(&mut d);
                let mut sep = chars_of("\n实际内容前100字符: ");
                out.append(&mut sep);
                let mut preview = chars_of(text.as_str());
                preview.truncate(100);
                out.append(&mut preview);
                string_of(&out)
            },
            ScheduleTextError::MissingCourseList => owned("JSON中未找到kbList字段，可能是API返回格式已变更"),
        }
    }
}

/// The string member `key` of the item, or `default`.
fn str_member_or_exec(item: &str, key: &str, default: &str) -> (r: String)
    ensures
        r@ == str_member_or(item@, key@, default@),
{
    match str_member_exec(item, key) {
        Some(s) => s,
        None => owned(default),
    }
}

/// The day number of a day name.
fn day_number_exec(name: &String) -> (r: i32)
    ensures
        r == day_number(name@),
{
    if *name == owned("星期一") {
        1
    } else if *name == owned("星期二") {
        2
    } else if *name == owned("星期三") {
        3
    } else if *name == owned("星期四") {
        4
    } else if *name == owned("星期五") {
        5
    } else if *name == owned("星期六") {
        6
    } else if *name == owned("星期日") {
        7
    } else {
        1
    }
}

/// A course name without trailing type symbols, trimmed.
fn clean_course_name(name: &str) -> (r: String)
    ensures
        r@ == trim(strip_type_marks(name@)),
{
    let s = chars_of(name);
    let mut end: usize = s.len();
    proof {
        assert(s@.take(s.len() as int) =~= s@);
    }
    while end > 0 && (s[end - 1] == '★' || s[end - 1] == '○' || s[end - 1] == '◆' || s[end
        - 1] == '◇' || s[end - 1] == '●')
        invariant
            end <= s.len(),
            strip_type_marks(s@) == strip_type_marks(s@.take(end as int)),
        decreases end,
    {
        proof {
            assert(s@.take(end as int).drop_last() =~= s@.take(end - 1));
        }
        end = end - 1;
    }
    let kept = s.as_slice().split_at(end).0;
    assert(kept@ =~= s@.take(end as int));
    string_of(&trim_exec(kept))
}

/// Reads one item of the course list (the JSON text of one element of
/// "kbList") into a course.
pub fn read_course_item(item: &str) -> (c: Course)
    ensures
        course_from_item(item@, c@),
{
    let name = str_member_or_exec(item, "kcmc", "未知课程");
    let teacher = str_member_or_exec(item, "xm", "未指定");
    let classroom = str_member_or_exec(item, "cdmc", "未指定");
    let day = str_member_or_exec(item, "xqjmc", "星期一");
    let jc = str_member_or_exec(item, "jc", "1-2节");
    let zcd = str_member_or_exec(item, "zcd", "1-18周");
    let day_of_week = day_number_exec(&day);
    let periods = parse_period_string(jc.as_str());
    let (weeks, week_type) = parse_week_string(zcd.as_str());
    Course {
        name: clean_course_name(name.as_str()),
        teacher,
        weeks,
        week_type,
        day_of_week,
        periods,
        location: classroom,
        course_type: CourseType::Regular,
        exam_info: None,
    }
}

/// Reads the teaching system's JSON course list.
///
/// The text is cleaned of surrounding whitespace and leading byte-order marks
/// and zero-width spaces. An HTML page is refused (the login has expired),
/// text that is not JSON is refused with the parser's message, and JSON
/// without a "kbList" array is refused; otherwise every item of "kbList"
/// becomes one course, in order.
pub fn parse_cufe_json(json_text: &str) -> (r: Result<Vec<Course>, ScheduleTextError>)
    ensures
        ({
            let c = clean_response(json_text@);
            if looks_like_html(c) {
                r matches Err(ScheduleTextError::HtmlPage)
            } else {
                match json_node(c) {
                    Err(e) => r matches Err(ScheduleTextError::InvalidJson { detail, text })
                        && detail@ == e && text@ == c,
                    Ok(node) => match array_member(node, "kbList"@) {
                        None => r matches Err(ScheduleTextError::MissingCourseList),
                        Some(items) => r matches Ok(v) && v.len() == items.len() && forall|i: int|
                            0 <= i < v.len() ==> course_from_item(items[i], #[trigger] v[i]@),
                    },
                }
            }
        }),
{
    let raw = chars_of(json_text);
    let t1 = trim_exec(&raw);
    let t2 = strip_leading_exec(&t1, '\u{feff}');
    let t3 = strip_leading_exec(&t2, '\u{200b}');
    let cleaned = string_of(&t3);
    if starts_with_exec(&t3, &chars_of("<!DOCTYPE")) || starts_with_exec(&t3, &chars_of("<html"))
        || starts_with_exec(&t3, &chars_of("<HTML")) {
        return Err(ScheduleTextError::HtmlPage);
    }
    let node = match parse_json_node(cleaned.as_str()) {
        Ok(n) => n,
        Err(e) => {
            return Err(ScheduleTextError::InvalidJson { detail: e, text: cleaned });
        },
    };
    let items = match array_member_exec(&node, "kbList") {
        Some(a) => a,
        None => {
            return Err(ScheduleTextError::MissingCourseList);
        },
    };
    let ghost iv = items@.map_values(|s: String| s@);
    let mut courses: Vec<Course> = Vec::new();
    let mut i: usize = 0;
    while i < items.len()
        invariant
            i <= items.len(),
            iv == items@.map_values(|s: String| s@),
            courses.len() == i,
            forall|j: int| 0 <= j < i ==> course_from_item(iv[j], #[trigger] courses[j]@),
        decreases items.len() - i,
    {
        let c = read_course_item(items[i].as_str());
        courses.push(c);
        proof {
            assert(iv[i as int] == items@[i as int]@);
            assert forall|j: int| 0 <= j < i + 1 implies course_from_item(
                iv[j],
                #[trigger] courses[j]@,
            ) by {
                if j < i {
                }
            }
        }
        i = i + 1;
    }
    Ok(courses)
}

/// A course whose day name is one of the seven weekday names is read as
/// that day, and every course is read as a day from 1 to 7.
pub proof fn law_day_names_read_back(d: i32, name: Seq<char>)
    ensures
        1 <= d <= 7 ==> day_number(day_name(d)) == d,
        1 <= day_number(name) <= 7,
{
    reveal_strlit("星期一");
    reveal_strlit("星期二");
    reveal_strlit("星期三");
    reveal_strlit("星期四");
    reveal_strlit("星期五");
    reveal_strlit("星期六");
    reveal_strlit("星期日");
    let names = seq!["星期一"@, "星期二"@, "星期三"@, "星期四"@, "星期五"@, "星期六"@, "星期日"@];
    assert forall|i: int, j: int| 0 <= i < j < 7 implies names[i] != names[j] by {
        assert(names[i][2] != names[j][2]);
    }
}

} // verus!
