//! The exam list that the teaching system returns as JSON ("items"), read
//! into exam entries of a schedule: each exam becomes a [`Course`] of type
//! exam in the week and on the weekday of its date.
use vstd::prelude::*;
use crate::text::{chars_of, lemma_split_at_sep, lemma_split_no_sep, lex_le, lex_le_exec, split, split_exec,
    string_of,
};
use crate::numbers::{decimal, decimal_nat, decimal_nat_exec};
use crate::json::{array_member, array_member_exec, json_node, parse_json_node, str_member,
    str_member_exec,
};
use crate::dates::{parse_ymd, ymd_date};
use crate::models::{Course, CourseType, CourseView, ExamInfo, ExamInfoView};
use crate::courses::{owned, str_member_or};

verus! {

/// The position of the first `c` in `s`.
pub open spec fn first_index(s: Seq<char>, c: char) -> Option<int>
    decreases s.len(),
{
    if s.len() == 0 {
        None
    } else if s[0] == c {
        Some(0)
    } else {
        match first_index(s.drop_first(), c) {
            Some(i) => Some(i + 1),
            None => None,
        }
    }
}

/// When both brackets occur, the first '(' comes before the first ')'.
/// (Otherwise taking the text between them is out of bounds.)
pub open spec fn brackets_ordered(s: Seq<char>) -> bool {
    match (first_index(s, '('), first_index(s, ')')) {
        (Some(o), Some(c)) => o < c,
        _ => true,
    }
}

/// The date, start time and end time of an exam time "2026-01-06(10:00-11:40)",
/// or the error message.
pub open spec fn exam_time_spec(s: Seq<char>) -> Result<(Seq<char>, Seq<char>, Seq<char>), Seq<char>> {
    match first_index(s, '(') {
        None => Err("考试时间格式错误，缺少括号: "@ + s),
        Some(o) => match first_index(s, ')') {
            None => Err("考试时间格式错误，缺少右括号: "@ + s),
            Some(c) => {
                let range = s.subrange(o + 1, c);
                let parts = split(range, '-');
                if parts.len() != 2 {
                    Err("考试时间范围格式错误: "@ + range)
                } else {
                    Ok((s.take(o), parts[0], parts[1]))
                }
            },
        },
    }
}

pub open spec fn exam_time_view(r: Result<(String, String, String), String>) -> Result<
    (Seq<char>, Seq<char>, Seq<char>),
    Seq<char>,
> {
    match r {
        Ok((a, b, c)) => Ok((a@, b@, c@)),
        Err(e) => Err(e@),
    }
}

/// The position of the first `c` in `s`.
fn first_index_exec(s: &[char], c: char) -> (r: Option<usize>)
    ensures
        match r {
            Some(i) => first_index(s@, c) == Some(i as int) && i < s.len() && s@[i as int] == c,
            None => first_index(s@, c) is None,
        },
{
    let mut i: usize = 0;
    proof {
        assert(s@.skip(0) =~= s@);
    }
    while i < s.len()
        invariant
            i <= s.len(),
            first_index(s@, c) == match first_index(s@.skip(i as int), c) {
                Some(j) => Some(j + i),
                None => None,
            },
        decreases s.len() - i,
    {
        proof {
            assert(s@.skip(i as int)[0] == s@[i as int]);
            assert(s@.skip(i as int).drop_first() =~= s@.skip(i + 1));
        }
        if s[i] == c {
            return Some(i);
        }
        i = i + 1;
    }
    None
}

/// `a` followed by `b`.
pub fn join(a: &str, b: &[char]) -> (r: String)
    ensures
        r@ == a@ + b@,
{
    let mut v = chars_of(a);
    let ghost before = v@;
    let mut k: usize = 0;
    while k < b.len()
        invariant
            k <= b.len(),
            v@ == before + b@.take(k as int),
        decreases b.len() - k,
    {
        v.push(b[k]);
        proof {
            assert(b@.take(k + 1) =~= b@.take(k as int).push(b@[k as int]));
        }
        k = k + 1;
    }
    proof {
        assert(b@.take(b.len() as int) =~= b@);
    }
    string_of(&v)
}

/// Splits an exam time such as "2026-01-06(10:00-11:40)" into its date, start
/// time and end time.
pub fn parse_exam_time(time_str: &str) -> (r: Result<(String, String, String), String>)
    requires
        brackets_ordered(time_str@),
    ensures
        exam_time_view(r) == exam_time_spec(time_str@),
{
    let s = chars_of(time_str);
    let open = match first_index_exec(&s, '(') {
        Some(o) => o,
        None => {
            return Err(join("考试时间格式错误，缺少括号: ", &s));
        },
    };
    let close = match first_index_exec(&s, ')') {
        Some(c) => c,
        None => {
            return Err(join("考试时间格式错误，缺少右括号: ", &s));
        },
    };
    let before_open = s.as_slice().split_at(open).0;
    assert(before_open@ =~= s@.take(open as int));
    let date = string_of(before_open);
    let range = s.as_slice().split_at(close).0.split_at(open + 1).1;
    assert(range@ =~= s@.subrange(open + 1, close as int));
    let parts = split_exec(range, '-');
    if parts.len() != 2 {
        return Err(join("考试时间范围格式错误: ", range));
    }
    Ok((date, string_of(&parts[0]), string_of(&parts[1])))
}

/// The periods of the default time table: start and end of each.
pub open spec fn slot_starts() -> Seq<Seq<char>> {
    seq![
        "08:00"@, "08:55"@, "10:00"@, "10:55"@, "11:50"@, "12:45"@, "14:00"@, "14:55"@, "16:00"@,
        "16:55"@, "17:50"@, "19:20"@, "20:15"@,
    ]
}

pub open spec fn slot_ends() -> Seq<Seq<char>> {
    seq![
        "08:45"@, "09:40"@, "10:45"@, "11:40"@, "12:35"@, "13:30"@, "14:45"@, "15:40"@, "16:45"@,
        "17:40"@, "18:35"@, "20:05"@, "21:00"@,
    ]
}

/// The first period (from `i` on) whose start is not before `t`.
pub open spec fn first_slot_starting_at_or_after(t: Seq<char>, i: int) -> Option<int>
    decreases 13 - i,
{
    if i >= 13 || i < 0 {
        None
    } else if lex_le(t, slot_starts()[i]) {
        Some(i)
    } else {
        first_slot_starting_at_or_after(t, i + 1)
    }
}

/// The first period (from `i` on) whose span contains `t`.
pub open spec fn first_slot_containing(t: Seq<char>, i: int) -> Option<int>
    decreases 13 - i,
{
    if i >= 13 || i < 0 {
        None
    } else if lex_le(slot_starts()[i], t) && lex_le(t, slot_ends()[i]) {
        Some(i)
    } else {
        first_slot_containing(t, i + 1)
    }
}

/// The last period (below `n`) whose end is not after `t`.
pub open spec fn last_slot_ending_at_or_before(t: Seq<char>, n: int) -> Option<int>
    decreases n,
{
    if n <= 0 || n > 13 {
        None
    } else if lex_le(slot_ends()[n - 1], t) {
        Some(n - 1)
    } else {
        last_slot_ending_at_or_before(t, n - 1)
    }
}

/// The last period (below `n`) whose span contains `t`.
pub open spec fn last_slot_containing(t: Seq<char>, n: int) -> Option<int>
    decreases n,
{
    if n <= 0 || n > 13 {
        None
    } else if lex_le(slot_starts()[n - 1], t) && lex_le(t, slot_ends()[n - 1]) {
        Some(n - 1)
    } else {
        last_slot_containing(t, n - 1)
    }
}

/// The first and last period of an exam from `start` to `end` ("HH:MM", compared
/// as text) in the default time table: the exam starts in the first period
/// starting at or after `start` (else the period containing it, else 1), and
/// ends in the last period ending at or before `end` (else the period
/// containing it, else 13). A start of 1 after "09:00" becomes 3 from "10:00"
/// on; an end of 13 before "20:00" becomes 4 up to "12:00", 8 up to "16:00",
/// 10 otherwise.
pub open spec fn exam_periods(start: Seq<char>, end: Seq<char>) -> Seq<i32> {
    let sp = start_slot(start);
    let ep = end_slot(end);
    let fs: i32 = if sp == 1 && !lex_le(start, "09:00"@) {
        if lex_le("10:00"@, start) {
            3
        } else {
            1
        }
    } else {
        sp
    };
    let fe: i32 = if ep == 13 && !lex_le("20:00"@, end) {
        if lex_le(end, "12:00"@) {
            4
        } else if lex_le(end, "16:00"@) {
            8
        } else {
            10
        }
    } else {
        ep
    };
    seq![fs, fe]
}

/// The period in which an exam starting at `start` begins, before adjustment.
pub open spec fn start_slot(start: Seq<char>) -> i32 {
    match first_slot_starting_at_or_after(start, 0) {
        Some(i) => (i + 1) as i32,
        None => match first_slot_containing(start, 0) {
            Some(i) => (i + 1) as i32,
            None => 1,
        },
    }
}

/// The period in which an exam ending at `end` ends, before adjustment.
pub open spec fn end_slot(end: Seq<char>) -> i32 {
    match last_slot_ending_at_or_before(end, 13) {
        Some(i) => (i + 1) as i32,
        None => match last_slot_containing(end, 13) {
            Some(i) => (i + 1) as i32,
            None => 13,
        },
    }
}

/// The slot table as character vectors.
fn slot_table() -> (r: (Vec<Vec<char>>, Vec<Vec<char>>))
    ensures
        r.0.len() == 13,
        r.1.len() == 13,
        forall|i: int| 0 <= i < 13 ==> #[trigger] r.0[i]@ == slot_starts()[i],
        forall|i: int| 0 <= i < 13 ==> #[trigger] r.1[i]@ == slot_ends()[i],
{
    let starts = vec![
        chars_of("08:00"),
        chars_of("08:55"),
        chars_of("10:00"),
        chars_of("10:55"),
        chars_of("11:50"),
        chars_of("12:45"),
        chars_of("14:00"),
        chars_of("14:55"),
        chars_of("16:00"),
        chars_of("16:55"),
        chars_of("17:50"),
        chars_of("19:20"),
        chars_of("20:15"),
    ];
    let ends = vec![
        chars_of("08:45"),
        chars_of("09:40"),
        chars_of("10:45"),
        chars_of("11:40"),
        chars_of("12:35"),
        chars_of("13:30"),
        chars_of("14:45"),
        chars_of("15:40"),
        chars_of("16:45"),
        chars_of("17:40"),
        chars_of("18:35"),
        chars_of("20:05"),
        chars_of("21:00"),
    ];
    (starts, ends)
}

/// The period in which an exam starting at `st` begins, before adjustment.
fn start_slot_exec(st: &Vec<char>) -> (r: i32)
    ensures
        r == start_slot(st@),
{
    let (starts, ends) = slot_table();
    let mut sp: i32 = 1;
    let mut found = false;
    let mut i: usize = 0;
    while i < 13
        invariant
            i <= 13,
            starts.len() == 13,
            forall|k: int| 0 <= k < 13 ==> #[trigger] starts[k]@ == slot_starts()[k],
            !found ==> first_slot_starting_at_or_after(st@, 0) == first_slot_starting_at_or_after(
                st@,
                i as int,
            ),
            found ==> first_slot_starting_at_or_after(st@, 0) == Some((sp - 1) as int),
            found ==> 1 <= sp <= 13,
            !found ==> sp == 1,
        decreases 13 - i,
    {
        if !found && lex_le_exec(&st, &starts[i]) {
            found = true;
            sp = (i + 1) as i32;
        }
        i = i + 1;
    }
    if !found {
        let mut i: usize = 0;
        while i < 13
            invariant
                i <= 13,
                starts.len() == 13,
                ends.len() == 13,
                forall|k: int| 0 <= k < 13 ==> #[trigger] starts[k]@ == slot_starts()[k],
                forall|k: int| 0 <= k < 13 ==> #[trigger] ends[k]@ == slot_ends()[k],
                first_slot_starting_at_or_after(st@, 0) is None,
                !found ==> first_slot_containing(st@, 0) == first_slot_containing(st@, i as int),
                found ==> first_slot_containing(st@, 0) == Some((sp - 1) as int),
                found ==> 1 <= sp <= 13,
                !found ==> sp == 1,
            decreases 13 - i,
        {
            if !found && lex_le_exec(&starts[i], &st) && lex_le_exec(&st, &ends[i]) {
                found = true;
                sp = (i + 1) as i32;
            }
            i = i + 1;
        }
    }
    sp
}

/// The period in which an exam ending at `et` ends, before adjustment.
fn end_slot_exec(et: &Vec<char>) -> (r: i32)
    ensures
        r == end_slot(et@),
{
    let (starts, ends) = slot_table();
    let mut ep: i32 = 13;
    let mut found_end = false;
    let mut n: usize = 13;
    while n > 0
        invariant
            n <= 13,
            ends.len() == 13,
            forall|k: int| 0 <= k < 13 ==> #[trigger] ends[k]@ == slot_ends()[k],
            !found_end ==> last_slot_ending_at_or_before(et@, 13) == last_slot_ending_at_or_before(
                et@,
                n as int,
            ),
            found_end ==> last_slot_ending_at_or_before(et@, 13) == Some((ep - 1) as int),
            found_end ==> 1 <= ep <= 13,
            !found_end ==> ep == 13,
        decreases n,
    {
        if !found_end && lex_le_exec(&ends[n - 1], &et) {
            found_end = true;
            ep = n as i32;
        }
        n = n - 1;
    }
    if !found_end {
        let mut n: usize = 13;
        while n > 0
            invariant
                n <= 13,
                starts.len() == 13,
                ends.len() == 13,
                forall|k: int| 0 <= k < 13 ==> #[trigger] starts[k]@ == slot_starts()[k],
                forall|k: int| 0 <= k < 13 ==> #[trigger] ends[k]@ == slot_ends()[k],
                last_slot_ending_at_or_before(et@, 13) is None,
                !found_end ==> last_slot_containing(et@, 13) == last_slot_containing(et@, n as int),
                found_end ==> last_slot_containing(et@, 13) == Some((ep - 1) as int),
                found_end ==> 1 <= ep <= 13,
                !found_end ==> ep == 13,
            decreases n,
        {
            if !found_end && lex_le_exec(&starts[n - 1], &et) && lex_le_exec(&et, &ends[n - 1]) {
                found_end = true;
                ep = n as i32;
            }
            n = n - 1;
        }
    }
    ep
}

/// Maps an exam's start and end time to its first and last period of the
/// default time table.
pub fn map_time_to_periods(start_time: &str, end_time: &str) -> (r: Result<Vec<i32>, String>)
    ensures
        r matches Ok(v) && v@ == exam_periods(start_time@, end_time@),
{
    let st = chars_of(start_time);
    let et = chars_of(end_time);
    let sp = start_slot_exec(&st);
    let ep = end_slot_exec(&et);
    let final_start: i32 = if sp == 1 && !lex_le_exec(&st, &chars_of("09:00")) {
        if lex_le_exec(&chars_of("10:00"), &st) {
            3
        } else {
            1
        }
    } else {
        sp
    };
    let final_end: i32 = if ep == 13 && !lex_le_exec(&chars_of("20:00"), &et) {
        if lex_le_exec(&et, &chars_of("12:00")) {
            4
        } else if lex_le_exec(&et, &chars_of("16:00")) {
            8
        } else {
            10
        }
    } else {
        ep
    };
    let r = vec![final_start, final_end];
    assert(r@ =~= exam_periods(start_time@, end_time@));
    Ok(r)
}

/// The teaching week (from 1) of a date `days` days after the first day of
/// the semester; the division rounds toward zero, as Rust's does.
pub open spec fn week_of_offset(days: int) -> int {
    (if days >= 0 {
        days / 7
    } else {
        -((-days) / 7)
    }) + 1
}

/// The schedule entry of an exam on the day `day` (a day number, weekday
/// `weekday`) of a semester whose first day has the day number `start_day`.
pub open spec fn exam_course(
    item: Seq<char>,
    date: Seq<char>,
    start: Seq<char>,
    end: Seq<char>,
    day: i32,
    weekday: u32,
    start_day: i32,
) -> CourseView {
    CourseView {
        name: "【考试】"@ + str_member_or(item, "kcmc"@, "未知课程"@),
        teacher: Seq::empty(),
        weeks: seq![week_of_offset(day - start_day) as i32],
        week_type: 0,
        day_of_week: (weekday + 1) as i32,
        periods: exam_periods(start, end),
        location: str_member_or(item, "cdmc"@, "未知地点"@),
        course_type: CourseType::Exam,
        exam_info: Some(
            ExamInfoView {
                date,
                start_time: start,
                end_time: end,
                exam_name: str_member_or(item, "ksmc"@, "考试"@),
            },
        ),
    }
}

/// The exam item's time "kssj" has its closing bracket before its opening
/// one: taking the text between them would be out of bounds.
pub open spec fn exam_item_unreadable(item: Seq<char>) -> bool {
    match str_member(item, "kssj"@) {
        Some(t) => !brackets_ordered(t),
        None => false,
    }
}

/// The exam entry of the item at position `idx`, or the error message.
pub open spec fn exam_item_result(item: Seq<char>, idx: int, start_day: i32) -> Result<
    CourseView,
    Seq<char>,
> {
    match str_member(item, "kssj"@) {
        None => Err("考试 "@ + decimal(idx + 1) + " 缺少考试时间字段"@),
        Some(t) => match exam_time_spec(t) {
            Err(e) => Err(e),
            Ok((date, st, et)) => match ymd_date(date) {
                Err(e) => Err("解析考试日期失败: "@ + e),
                Ok((day, wd)) => Ok(exam_course(item, date, st, et, day, wd, start_day)),
            },
        },
    }
}

/// What reading a list of exam items comes to.
pub enum ExamOutcome {
    /// Every item read: the exam entries, in order.
    Exams(Seq<CourseView>),
    /// The first item that could not be read, and why.
    Failure(Seq<char>),
    /// An item's time has its brackets in the wrong order (reading it would
    /// slice out of bounds).
    Unreadable,
}

/// Reading the items in order, stopping at the first that fails.
pub open spec fn exams_outcome(items: Seq<Seq<char>>, start_day: i32) -> ExamOutcome
    decreases items.len(),
{
    if items.len() == 0 {
        ExamOutcome::Exams(Seq::empty())
    } else {
        match exams_outcome(items.drop_last(), start_day) {
            ExamOutcome::Exams(cs) => if exam_item_unreadable(items.last()) {
                ExamOutcome::Unreadable
            } else {
                match exam_item_result(items.last(), items.len() - 1, start_day) {
                    Ok(c) => ExamOutcome::Exams(cs.push(c)),
                    Err(e) => ExamOutcome::Failure(e),
                }
            },
            other => other,
        }
    }
}

/// What reading the exam JSON `exam_json` for a semester starting on the
/// date `start` ("YYYY-MM-DD") comes to.
pub open spec fn exam_json_outcome(exam_json: Seq<char>, start: Seq<char>) -> ExamOutcome {
    match ymd_date(start) {
        Err(e) => ExamOutcome::Failure("解析学期开始日期失败: "@ + e),
        Ok((start_day, _)) => match json_node(exam_json) {
            Ok(node) => match array_member(node, "items"@) {
                Some(items) => exams_outcome(items, start_day),
                None => ExamOutcome::Failure("JSON 中缺少 items 数组"@),
            },
            Err(_) => ExamOutcome::Failure("JSON 中缺少 items 数组"@),
        },
    }
}

/// The result of reading exams, as the contract states it.
pub open spec fn exam_result_matches(r: Result<Vec<Course>, String>, o: ExamOutcome) -> bool {
    match o {
        ExamOutcome::Exams(cs) => r matches Ok(v) && v.len() == cs.len() && forall|i: int|
            0 <= i < v.len() ==> #[trigger] v[i]@ == cs[i],
        ExamOutcome::Failure(e) => r matches Err(m) && m@ == e,
        ExamOutcome::Unreadable => false,
    }
}

enum ItemStep {
    Read(Course),
    Failed(String),
    Unreadable,
}

/// Reads one exam item.
fn exam_item_exec(item: &str, idx: usize, start_day: i32) -> (r: ItemStep)
    requires
        idx < usize::MAX,
    ensures
        exam_item_unreadable(item@) <==> r is Unreadable,
        !exam_item_unreadable(item@) ==> match exam_item_result(item@, idx as int, start_day) {
            Ok(c) => r matches ItemStep::Read(x) && x@ == c,
            Err(e) => r matches ItemStep::Failed(m) && m@ == e,
        },
{
    let name = str_member_or_exec2(item, "kcmc", "未知课程");
    let time = match str_member_exec(item, "kssj") {
        Some(t) => t,
        None => {
            let n = decimal_nat_exec((idx + 1) as u64);
            let head = join("考试 ", &n);
            let tail = chars_of(" 缺少考试时间字段");
            let msg = join(head.as_str(), &tail);
            proof {
                assert(decimal(idx + 1) == decimal_nat((idx + 1) as nat));
                assert(msg@ =~= "考试 "@ + decimal(idx + 1) + " 缺少考试时间字段"@);
            }
            return ItemStep::Failed(msg);
        },
    };
    let location = str_member_or_exec2(item, "cdmc", "未知地点");
    let exam_name = str_member_or_exec2(item, "ksmc", "考试");
    let tc = chars_of(time.as_str());
    match (first_index_exec(&tc, '('), first_index_exec(&tc, ')')) {
        (Some(o), Some(c)) => {
            if c < o {
                return ItemStep::Unreadable;
            }
        },
        _ => {},
    }
    let (date, start, end) = match parse_exam_time(time.as_str()) {
        Ok(p) => p,
        Err(e) => {
            return ItemStep::Failed(e);
        },
    };
    let (day, weekday) = match parse_ymd(date.as_str(), "%Y-%m-%d") {
        Ok(d) => d,
        Err(e) => {
            return ItemStep::Failed(join("解析考试日期失败: ", &chars_of(e.as_str())));
        },
    };
    let diff: i64 = day as i64 - start_day as i64;
    let weeks_before: i64 = if diff >= 0 {
        diff / 7
    } else {
        -((-diff) / 7)
    };
    let week_number: i64 = weeks_before + 1;
    let periods = match map_time_to_periods(start.as_str(), end.as_str()) {
        Ok(p) => p,
        Err(e) => {
            return ItemStep::Failed(e);
        },
    };
    let display_name = join("【考试】", &chars_of(name.as_str()));
    let info = ExamInfo { date, start_time: start, end_time: end, exam_name };
    let weeks = vec![#[verifier::truncate] (week_number as i32)];
    let course = Course {
        name: display_name,
        teacher: String::new(),
        weeks,
        week_type: 0,
        day_of_week: (weekday + 1) as i32,
        periods,
        location,
        course_type: CourseType::Exam,
        exam_info: Some(info),
    };
    proof {
        assert(weeks@ =~= seq![week_of_offset(day - start_day) as i32]);
        assert(course@.weeks == seq![week_of_offset(day - start_day) as i32]);
        assert(course@.teacher =~= Seq::<char>::empty());
        assert(course@ == exam_course(item@, date@, start@, end@, day, weekday, start_day));
    }
    ItemStep::Read(course)
}

/// The string member `key` of the item, or `default`.
fn str_member_or_exec2(item: &str, key: &str, default: &str) -> (r: String)
    ensures
        r@ == str_member_or(item@, key@, default@),
{
    match str_member_exec(item, key) {
        Some(s) => s,
        None => owned(default),
    }
}

enum ExamRun {
    Exams(Vec<Course>),
    Failure(String),
    Unreadable,
}

/// Reads the exam JSON, reporting an unreadable item instead of reading it.
fn exam_run(exam_json: &str, semester_start_date: &str) -> (r: ExamRun)
    ensures
        match exam_json_outcome(exam_json@, semester_start_date@) {
            ExamOutcome::Exams(cs) => r matches ExamRun::Exams(v) && v.len() == cs.len() && forall|
                i: int,
            | 0 <= i < v.len() ==> #[trigger] v[i]@ == cs[i],
            ExamOutcome::Failure(e) => r matches ExamRun::Failure(m) && m@ == e,
            ExamOutcome::Unreadable => r is Unreadable,
        },
{
    let start_day = match parse_ymd(semester_start_date, "%Y-%m-%d") {
        Ok((d, _)) => d,
        Err(e) => {
            return ExamRun::Failure(join("解析学期开始日期失败: ", &chars_of(e.as_str())));
        },
    };
    let node = match parse_json_node(exam_json) {
        Ok(n) => n,
        Err(_) => {
            return ExamRun::Failure(owned("JSON 中缺少 items 数组"));
        },
    };
    let items = match array_member_exec(&node, "items") {
        Some(a) => a,
        None => {
            return ExamRun::Failure(owned("JSON 中缺少 items 数组"));
        },
    };
    let ghost iv = items@.map_values(|s: String| s@);
    let mut exams: Vec<Course> = Vec::new();
    let mut i: usize = 0;
    proof {
        assert(iv.take(0) =~= Seq::<Seq<char>>::empty());
    }
    while i < items.len()
        invariant
            i <= items.len(),
            iv == items@.map_values(|s: String| s@),
            exams_outcome(iv.take(i as int), start_day) matches ExamOutcome::Exams(cs) && exams.len()
                == cs.len() && forall|j: int| 0 <= j < exams.len() ==> #[trigger] exams[j]@ == cs[j],
            exam_json_outcome(exam_json@, semester_start_date@) == exams_outcome(iv, start_day),
        decreases items.len() - i,
    {
        let ghost prev = iv.take(i as int);
        let ghost t = iv.take(i + 1);
        proof {
            assert(t.drop_last() =~= prev);
            assert(t.last() == items@[i as int]@);
        }
        let step = exam_item_exec(items[i].as_str(), i, start_day);
        let ghost cs = exams_outcome(prev, start_day)->Exams_0;
        proof {
            assert(exams_outcome(t, start_day) == if exam_item_unreadable(t.last()) {
                ExamOutcome::Unreadable
            } else {
                match exam_item_result(t.last(), i as int, start_day) {
                    Ok(c) => ExamOutcome::Exams(cs.push(c)),
                    Err(e) => ExamOutcome::Failure(e),
                }
            });
        }
        match step {
            ItemStep::Read(c) => {
                exams.push(c);
                proof {
                    assert forall|j: int| 0 <= j < exams.len() implies #[trigger] exams[j]@ == cs.push(
                        c@,
                    )[j] by {
                        if j < i {
                        }
                    }
                }
            },
            ItemStep::Failed(m) => {
                proof {
                    lemma_outcome_stops(iv, i as int + 1, start_day);
                }
                return ExamRun::Failure(m);
            },
            ItemStep::Unreadable => {
                proof {
                    lemma_outcome_stops(iv, i as int + 1, start_day);
                }
                return ExamRun::Unreadable;
            },
        }
        i = i + 1;
    }
    proof {
        assert(iv.take(items.len() as int) =~= iv);
    }
    ExamRun::Exams(exams)
}

/// Once reading stops at an item, later items do not change the outcome.
proof fn lemma_outcome_stops(items: Seq<Seq<char>>, n: int, start_day: i32)
    requires
        0 <= n <= items.len(),
        !(exams_outcome(items.take(n), start_day) is Exams),
    ensures
        exams_outcome(items, start_day) == exams_outcome(items.take(n), start_day),
    decreases items.len() - n,
{
    if n < items.len() {
        assert(items.take(n + 1).drop_last() =~= items.take(n));
        lemma_outcome_stops(items, n + 1, start_day);
    } else {
        assert(items.take(n) =~= items);
    }
}

/// Reads the teaching system's exam list `exam_json` (JSON text) for a
/// semester whose first Monday is `semester_start_date` ("YYYY-MM-DD").
///
/// Every item of "items" becomes an exam entry: named "【考试】" and the
/// course name, in the teaching week of its date (counted from the semester
/// start, rounding toward zero) and on its weekday, in the periods its time
/// covers. Reading stops with an error at a bad semester date, a missing
/// "items" array, or the first item without a time, with a malformed time,
/// or with a bad date. Items whose time has ')' before '(' are outside the
/// contract: reading one would slice out of bounds.
pub fn parse_exam_json(exam_json: &str, semester_start_date: &str) -> (r: Result<
    Vec<Course>,
    String,
>)
    requires
        !(exam_json_outcome(exam_json@, semester_start_date@) is Unreadable),
    ensures
        exam_result_matches(r, exam_json_outcome(exam_json@, semester_start_date@)),
{
    match exam_run(exam_json, semester_start_date) {
        ExamRun::Exams(v) => Ok(v),
        ExamRun::Failure(m) => Err(m),
        ExamRun::Unreadable => Err(String::new()),
    }
}

/// Reads the exam list as [`parse_exam_json`] does when every item can be
/// read; `None` when an item's time has its closing bracket before its
/// opening one.
pub fn try_parse_exam_json(exam_json: &str, semester_start_date: &str) -> (r: Option<
    Result<Vec<Course>, String>,
>)
    ensures
        exam_json_outcome(exam_json@, semester_start_date@) is Unreadable <==> r is None,
        r matches Some(x) ==> exam_result_matches(
            x,
            exam_json_outcome(exam_json@, semester_start_date@),
        ),
{
    match exam_run(exam_json, semester_start_date) {
        ExamRun::Unreadable => None,
        _ => Some(parse_exam_json(exam_json, semester_start_date)),
    }
}

proof fn lemma_first_slots_in_range(t: Seq<char>, i: int)
    requires
        0 <= i,
    ensures
        first_slot_starting_at_or_after(t, i) matches Some(j) ==> 0 <= j < 13,
        first_slot_containing(t, i) matches Some(j) ==> 0 <= j < 13,
    decreases 13 - i,
{
    if i < 13 {
        lemma_first_slots_in_range(t, i + 1);
    }
}

proof fn lemma_last_slots_in_range(t: Seq<char>, n: int)
    ensures
        last_slot_ending_at_or_before(t, n) matches Some(j) ==> 0 <= j < 13,
        last_slot_containing(t, n) matches Some(j) ==> 0 <= j < 13,
    decreases n,
{
    if 0 < n <= 13 {
        lemma_last_slots_in_range(t, n - 1);
    }
}

/// An exam always spans two periods of the default time table: its first
/// and last period are both between 1 and 13.
pub proof fn law_exam_periods_in_table(start: Seq<char>, end: Seq<char>)
    ensures
        exam_periods(start, end).len() == 2,
        1 <= exam_periods(start, end)[0] <= 13,
        1 <= exam_periods(start, end)[1] <= 13,
{
    lemma_first_slots_in_range(start, 0);
    lemma_last_slots_in_range(end, 13);
}

/// Before a text without `c`, the first `c` is found that much later.
proof fn lemma_first_index_after(a: Seq<char>, b: Seq<char>, c: char)
    requires
        forall|i: int| 0 <= i < a.len() ==> a[i] != c,
    ensures
        first_index(a + b, c) == match first_index(b, c) {
            Some(i) => Some(a.len() + i),
            None => None,
        },
    decreases a.len(),
{
    if a.len() > 0 {
        lemma_first_index_after(a.drop_first(), b, c);
        assert((a + b).drop_first() =~= a.drop_first() + b);
        assert((a + b)[0] == a[0]);
    } else {
        assert(a + b =~= b);
    }
}

/// An exam time written "date(start-end)", possibly followed by more text,
/// is read as that date, start time and end time, start first.
pub proof fn law_exam_time_parts(date: Seq<char>, start: Seq<char>, end: Seq<char>, rest: Seq<char>)
    requires
        forall|i: int| 0 <= i < date.len() ==> date[i] != '(' && date[i] != ')',
        forall|i: int| 0 <= i < start.len() ==> start[i] != '-' && start[i] != ')',
        forall|i: int| 0 <= i < end.len() ==> end[i] != '-' && end[i] != ')',
    ensures
        exam_time_spec(date + seq!['('] + start + seq!['-'] + end + seq![')'] + rest) == Ok::<
            (Seq<char>, Seq<char>, Seq<char>),
            Seq<char>,
        >((date, start, end)),
{
    let t = date + seq!['('] + start + seq!['-'] + end + seq![')'] + rest;
    let x = start + seq!['-'] + end + seq![')'] + rest;
    assert(t =~= date + (seq!['('] + x));
    lemma_first_index_after(date, seq!['('] + x, '(');
    assert((seq!['('] + x)[0] == '(');
    let p = date + seq!['('] + start + seq!['-'] + end;
    assert(t =~= p + (seq![')'] + rest));
    assert forall|i: int| 0 <= i < p.len() implies p[i] != ')' by {
        if i < date.len() {
            assert(p[i] == date[i]);
        } else if i == date.len() {
        } else if i < date.len() + 1 + start.len() {
            assert(p[i] == start[i - date.len() - 1]);
        } else if i == date.len() + 1 + start.len() {
        } else {
            assert(p[i] == end[i - date.len() - 2 - start.len()]);
        }
    }
    lemma_first_index_after(p, seq![')'] + rest, ')');
    assert((seq![')'] + rest)[0] == ')');
    let o = date.len() as int;
    let c = p.len() as int;
    assert(first_index(t, '(') == Some(o));
    assert(first_index(t, ')') == Some(c));
    assert(t.subrange(o + 1, c) =~= start + seq!['-'] + end);
    assert(t.take(o) =~= date);
    lemma_split_at_sep(start, end, '-');
    lemma_split_no_sep(start, '-');
    lemma_split_no_sep(end, '-');
    assert(seq![start] + seq![end] =~= seq![start, end]);
}

/// An exam entry keeps the date and times of its item's exam time: the
/// start time is the time before '-' and the end time the one after it.
pub proof fn law_exam_entry_times(item: Seq<char>, idx: int, start_day: i32)
    ensures
        exam_item_result(item, idx, start_day) matches Ok(c) ==> (str_member(item, "kssj"@) matches Some(
            t,
        ) && exam_time_spec(t) matches Ok((date, st, et)) && c.exam_info matches Some(info)
            && info.date == date && info.start_time == st && info.end_time == et),
{
}

/// Every exam entry read from a list comes from the item at its position.
pub proof fn law_exams_follow_items(items: Seq<Seq<char>>, start_day: i32)
    ensures
        exams_outcome(items, start_day) matches ExamOutcome::Exams(cs) ==> (cs.len() == items.len()
            && forall|i: int|
            0 <= i < cs.len() ==> exam_item_result(items[i], i, start_day) == Ok::<
                CourseView,
                Seq<char>,
            >(#[trigger] cs[i])),
    decreases items.len(),
{
    if items.len() > 0 {
        law_exams_follow_items(items.drop_last(), start_day);
        match exams_outcome(items.drop_last(), start_day) {
            ExamOutcome::Exams(prev) => {
                assert forall|i: int| 0 <= i < prev.len() implies items[i] == #[trigger] items.drop_last()[i] by {}
            },
            _ => {},
        }
    }
}

} // verus!
