//! Bookkeeping of stored schedules: their order, merging fetched exams and
//! courses into them, and the calendar arithmetic of teaching weeks.
use vstd::prelude::*;
use crate::text::{chars_of, string_of};
use crate::numbers::{decimal, decimal_nat, decimal_exec, decimal_nat_exec};
use crate::models::{CachedSchedule, Course, CourseType, CourseView, courses_view};
use crate::courses::owned;
use crate::exams::join;
use crate::dates::{clock_difference_fits, clock_reading, utc_now, format_utc_date, month_day_of, month_day_of_day_number, utc_date_text,
    utc_day_number, utc_day_number_of,
};
use crate::calendar::{SemesterCalendar, parse_calendar_text, calendar_of_text};
use crate::widget::div_toward_zero;

verus! {

/// The largest of the recorded sort positions, if any.
pub open spec fn max_sort_index(s: Seq<Option<i32>>) -> Option<i32>
    decreases s.len(),
{
    if s.len() == 0 {
        None
    } else {
        let m = max_sort_index(s.drop_last());
        match s.last() {
            Some(x) => match m {
                Some(y) => if x > y {
                    Some(x)
                } else {
                    Some(y)
                },
                None => Some(x),
            },
            None => m,
        }
    }
}

/// The sort position of a schedule added after the schedules whose sort
/// positions are `indices`: one past the largest, 0 when none is recorded.
pub fn next_sort_index(indices: &[Option<i32>]) -> (r: i32)
    requires
        max_sort_index(indices@) != Some(i32::MAX),
    ensures
        r == match max_sort_index(indices@) {
            Some(m) => m + 1,
            None => 0,
        },
{
    let mut m: Option<i32> = None;
    let mut i: usize = 0;
    proof {
        assert(indices@.take(0) =~= Seq::<Option<i32>>::empty());
    }
    while i < indices.len()
        invariant
            i <= indices.len(),
            m == max_sort_index(indices@.take(i as int)),
        decreases indices.len() - i,
    {
        proof {
            assert(indices@.take(i + 1).drop_last() =~= indices@.take(i as int));
            assert(indices@.take(i + 1).last() == indices@[i as int]);
        }
        match indices[i] {
            Some(x) => {
                m = match m {
                    Some(y) => if x > y {
                        Some(x)
                    } else {
                        Some(y)
                    },
                    None => Some(x),
                };
            },
            None => {},
        }
        i = i + 1;
    }
    proof {
        assert(indices@.take(indices.len() as int) =~= indices@);
    }
    match m {
        Some(v) => v + 1,
        None => 0,
    }
}

/// A course of the given type.
pub open spec fn of_type(t: CourseType) -> spec_fn(CourseView) -> bool {
    |c: CourseView| c.course_type == t
}

/// A course not of the given type.
pub open spec fn not_of_type(t: CourseType) -> spec_fn(CourseView) -> bool {
    |c: CourseView| c.course_type != t
}

/// How long a stored schedule stays fresh: 30 days, in seconds.
pub const SCHEDULE_LIFETIME_SECS: i64 = 2_592_000;

/// The sort position of a schedule being saved: the one it already has,
/// else one after every stored schedule.
pub fn sort_index_for(existing: Option<i32>, indices: &[Option<i32>]) -> (r: i32)
    requires
        existing is None ==> max_sort_index(indices@) != Some(i32::MAX),
    ensures
        r == match existing {
            Some(i) => i as int,
            None => match max_sort_index(indices@) {
                Some(m) => m + 1,
                None => 0,
            },
        },
{
    match existing {
        Some(i) => i,
        None => next_sort_index(indices),
    }
}

/// A schedule stored at time `now`: it stays fresh for
/// [`SCHEDULE_LIFETIME_SECS`].
pub fn new_cached_schedule(
    id: String,
    name: String,
    courses: Vec<Course>,
    now: i64,
    first_day: Option<i64>,
    max_periods: Option<i32>,
    weeks_count: Option<i32>,
    time_table_id: Option<String>,
    sort_index: Option<i32>,
    school_year: Option<i32>,
    school_term: Option<i32>,
) -> (r: CachedSchedule)
    requires
        now <= i64::MAX - SCHEDULE_LIFETIME_SECS,
    ensures
        r == (CachedSchedule {
            id,
            name,
            courses,
            timestamp: now,
            expire_time: (now + SCHEDULE_LIFETIME_SECS) as i64,
            first_day,
            max_periods,
            weeks_count,
            time_table_id,
            sort_index,
            school_year,
            school_term,
        }),
{
    CachedSchedule {
        id,
        name,
        courses,
        timestamp: now,
        expire_time: now + SCHEDULE_LIFETIME_SECS,
        first_day,
        max_periods,
        weeks_count,
        time_table_id,
        sort_index,
        school_year,
        school_term,
    }
}

/// Copies of the courses of `cs` that are exams (`exams`) or that are not.
fn select_courses(cs: &[Course], exams: bool) -> (r: Vec<Course>)
    ensures
        courses_view(r@) == courses_view(cs@).filter(
            if exams {
                of_type(CourseType::Exam)
            } else {
                not_of_type(CourseType::Exam)
            },
        ),
{
    let ghost v = courses_view(cs@);
    let ghost keep = if exams {
        of_type(CourseType::Exam)
    } else {
        not_of_type(CourseType::Exam)
    };
    let mut out: Vec<Course> = Vec::new();
    let mut i: usize = 0;
    proof {
        assert(v.take(0).filter(keep) =~= Seq::empty());
        assert(courses_view(out@) =~= Seq::empty());
    }
    while i < cs.len()
        invariant
            i <= cs.len(),
            v == courses_view(cs@),
            keep == (if exams {
                of_type(CourseType::Exam)
            } else {
                not_of_type(CourseType::Exam)
            }),
            courses_view(out@) == v.take(i as int).filter(keep),
        decreases cs.len() - i,
    {
        proof {
            assert(v.take(i + 1).drop_last() =~= v.take(i as int));
            assert(v.take(i + 1).last() == cs@[i as int]@);
            reveal_with_fuel(Seq::<_>::filter, 1);
        }
        let is_exam = cs[i].course_type == CourseType::Exam;
        if is_exam == exams {
            let ghost before = out@;
            out.push(cs[i].duplicate());
            proof {
                assert(courses_view(out@) =~= courses_view(before).push(cs@[i as int]@));
            }
        }
        i = i + 1;
    }
    proof {
        assert(v.take(cs.len() as int) =~= v);
    }
    out
}

/// `a` followed by `b`.
fn append_courses(a: Vec<Course>, b: Vec<Course>) -> (r: Vec<Course>)
    ensures
        courses_view(r@) == courses_view(a@) + courses_view(b@),
{
    let mut a = a;
    let mut b = b;
    let ghost av = courses_view(a@);
    let ghost bv = courses_view(b@);
    a.append(&mut b);
    assert(courses_view(a@) =~= av + bv);
    a
}

/// A schedule's courses with the newly fetched exams: its regular courses
/// (earlier exams dropped), then the exams.
pub fn merge_exams(courses: &[Course], exams: &[Course]) -> (r: Vec<Course>)
    ensures
        courses_view(r@) == courses_view(courses@).filter(not_of_type(CourseType::Exam))
            + courses_view(exams@),
{
    let regular = select_courses(courses, false);
    let mut copies: Vec<Course> = Vec::new();
    let mut i: usize = 0;
    while i < exams.len()
        invariant
            i <= exams.len(),
            copies@.len() == i,
            courses_view(copies@) == courses_view(exams@).take(i as int),
        decreases exams.len() - i,
    {
        let ghost before = copies@;
        copies.push(exams[i].duplicate());
        proof {
            assert forall|k: int| 0 <= k < i + 1 implies #[trigger] courses_view(copies@)[k]
                == courses_view(exams@).take(i + 1)[k] by {
                if k < i {
                    assert(copies@[k] == before[k]);
                    assert(courses_view(before)[k] == courses_view(exams@).take(i as int)[k]);
                }
            }
            assert(courses_view(copies@) =~= courses_view(exams@).take(i + 1));
        }
        i = i + 1;
    }
    proof {
        assert(courses_view(exams@).take(exams.len() as int) =~= courses_view(exams@));
    }
    append_courses(regular, copies)
}

/// Exams imported into a schedule: an error when the exam list is empty,
/// otherwise the schedule's regular courses followed by the exams.
pub fn import_exams(courses: &[Course], exams: &[Course]) -> (r: Result<Vec<Course>, String>)
    ensures
        exams.len() == 0 ==> (r matches Err(m) && m@ == "未查询到考试安排"@),
        exams.len() > 0 ==> (r matches Ok(v) && courses_view(v@) == courses_view(courses@).filter(
            not_of_type(CourseType::Exam),
        ) + courses_view(exams@)),
{
    if exams.len() == 0 {
        Err(owned("未查询到考试安排"))
    } else {
        Ok(merge_exams(courses, exams))
    }
}

/// A refreshed schedule's courses: the stored exams (the teaching system
/// does not list them), then the fetched courses.
pub fn merge_updated_courses(old_courses: &[Course], new_courses: Vec<Course>) -> (r: Vec<Course>)
    ensures
        courses_view(r@) == courses_view(old_courses@).filter(of_type(CourseType::Exam))
            + courses_view(new_courses@),
{
    let exams = select_courses(old_courses, true);
    append_courses(exams, new_courses)
}

/// What an exam query needs from a schedule: its academic year as text, its
/// term and its first day; an error names the first missing item.
pub fn exam_query(
    school_year: Option<i32>,
    school_term: Option<i32>,
    first_day: Option<i64>,
) -> (r: Result<(String, i32, i64), String>)
    ensures
        match (school_year, school_term, first_day) {
            (None, _, _) => r matches Err(m) && m@ == "课表缺少学年信息，请先编辑课表填写学年学期"@,
            (Some(_), None, _) => r matches Err(m) && m@ == "课表缺少学期信息，请先编辑课表填写学年学期"@,
            (Some(_), Some(_), None) => r matches Err(m) && m@
                == "课表缺少学期开始日期，请先在课表编辑中填写「学期第一天」"@,
            (Some(y), Some(t), Some(f)) => r matches Ok((ys, tt, ff)) && ys@ == decimal(y as int)
                && tt == t && ff == f,
        },
{
    let year = match school_year {
        Some(y) => y,
        None => {
            return Err(owned("课表缺少学年信息，请先编辑课表填写学年学期"));
        },
    };
    let term = match school_term {
        Some(t) => t,
        None => {
            return Err(owned("课表缺少学期信息，请先编辑课表填写学年学期"));
        },
    };
    let first = match first_day {
        Some(f) => f,
        None => {
            return Err(owned("课表缺少学期开始日期，请先在课表编辑中填写「学期第一天」"));
        },
    };
    Ok((string_of(&decimal_exec(year as i64)), term, first))
}

/// The semester's first day as "YYYY-MM-DD" (UTC), or an error when the
/// timestamp is not a representable time.
pub fn semester_start_text(first_day: i64) -> (r: Result<String, String>)
    ensures
        match utc_date_text(first_day) {
            Some(d) => r matches Ok(s) && s@ == d,
            None => r matches Err(m) && m@ == "无效的学期开始日期"@,
        },
{
    match format_utc_date(first_day, "%Y-%m-%d") {
        Some(s) => Ok(s),
        None => Err(owned("无效的学期开始日期")),
    }
}

/// The teaching week at time `now` for a semester starting at `first_day`:
/// weeks since then (rounded toward zero) plus one, at least 1, converted to
/// `i32`; 1 without a first day.
pub open spec fn week_since(first_day: Option<i64>, now: i64) -> i32 {
    match first_day {
        Some(fd) => {
            let w = div_toward_zero(now - fd, 604800) + 1;
            (if w < 1 {
                1
            } else {
                w
            }) as i32
        },
        None => 1,
    }
}

/// The current teaching week of a semester starting at `first_day`: the
/// week [`current_week_since`] gives at the time read from the clock;
/// `None` when the clock gives no time (set before 1970, or beyond what
/// `chrono` represents).
pub fn get_current_week(first_day: Option<i64>) -> (r: Option<i32>)
    requires
        first_day matches Some(fd) ==> clock_difference_fits(fd),
    ensures
        r matches Some(w) ==> exists|now: i64| clock_reading(now) && w == #[trigger] week_since(first_day, now),
{
    match utc_now() {
        Some(now) => Some(current_week_since(first_day, now)),
        None => None,
    }
}

/// The teaching week at time `now`.
pub fn current_week_since(first_day: Option<i64>, now: i64) -> (r: i32)
    requires
        first_day matches Some(fd) ==> i64::MIN <= now - fd <= i64::MAX,
    ensures
        r == week_since(first_day, now),
{
    match first_day {
        Some(fd) => {
            let d: i64 = now - fd;
            let q: i64 = if d >= 0 {
                assert(d / 604800 <= d) by (nonlinear_arith)
                    requires
                        d >= 0,
                ;
                d / 604800
            } else {
                let m: u64 = (-(d + 1)) as u64 + 1;
                assert(m / 604800 <= m) by (nonlinear_arith);
                -((m / 604800) as i64)
            };
            let w: i64 = q + 1;
            let kept: i64 = if w < 1 {
                1
            } else {
                w
            };
            #[verifier::truncate]
            (kept as i32)
        },
        None => 1,
    }
}

/// The day number of the day `target_day` (1 = Monday) of week
/// `target_week` of a semester starting at `first_day`, when the start is a
/// representable time.
pub open spec fn target_day_number(first_day: i64, target_week: i32, target_day: i32) -> Option<int> {
    match utc_day_number(first_day) {
        Some(n) => Some(n + 7 * (target_week - 1) + (target_day - 1)),
        None => None,
    }
}

/// The target date is one `chrono` can represent (otherwise adding the
/// weeks to the start date overflows).
pub open spec fn target_representable(first_day: i64, target_week: i32, target_day: i32) -> bool {
    match target_day_number(first_day, target_week, target_day) {
        Some(t) => i32::MIN <= t <= i32::MAX && month_day_of(t as i32) is Some,
        None => true,
    }
}

/// The date of a teaching day as "M/D", or the error message.
pub open spec fn calculated_date(first_day: i64, target_week: i32, target_day: i32) -> Result<
    Seq<char>,
    Seq<char>,
> {
    if target_week < 1 {
        Err("目标周次必须大于 0"@)
    } else if !(1 <= target_day <= 7) {
        Err("目标星期必须在 1 到 7 之间"@)
    } else {
        match target_day_number(first_day, target_week, target_day) {
            None => Err("无效的学期开始时间戳"@),
            Some(t) => {
                let (m, d) = month_day_of(t as i32)->0;
                Ok(decimal(m as int) + "/"@ + decimal(d as int))
            },
        }
    }
}

pub open spec fn result_view(r: Result<String, String>) -> Result<Seq<char>, Seq<char>> {
    match r {
        Ok(s) => Ok(s@),
        Err(e) => Err(e@),
    }
}

/// The date ("M/D") of day `target_day` (1 = Monday .. 7) of week
/// `target_week` (from 1) of a semester starting at `first_day`.
pub fn calculate_date(first_day: i64, target_week: i32, target_day: i32) -> (r: Result<
    String,
    String,
>)
    requires
        target_week >= 1 && 1 <= target_day <= 7 ==> target_representable(
            first_day,
            target_week,
            target_day,
        ),
    ensures
        result_view(r) == calculated_date(first_day, target_week, target_day),
{
    if target_week < 1 {
        return Err(owned("目标周次必须大于 0"));
    }
    if !(1 <= target_day && target_day <= 7) {
        return Err(owned("目标星期必须在 1 到 7 之间"));
    }
    let n = match utc_day_number_of(first_day) {
        Some(n) => n,
        None => {
            return Err(owned("无效的学期开始时间戳"));
        },
    };
    let t: i64 = n as i64 + 7 * (target_week as i64 - 1) + (target_day as i64 - 1);
    let (m, d) = match month_day_of_day_number(t as i32) {
        Some(md) => md,
        None => {
            return Err(String::new());
        },
    };
    let mut text = decimal_nat_exec(m as u64);
    text.push('/');
    let dd = decimal_nat_exec(d as u64);
    let joined = join(string_of(&text).as_str(), &dd);
    proof {
        reveal_strlit("/");
        assert(joined@ =~= decimal(m as int) + "/"@ + decimal(d as int));
    }
    Ok(joined)
}

/// The date of a teaching day as [`calculate_date`] gives it, or `None` when
/// the date is beyond what `chrono` can represent.
pub fn try_calculate_date(first_day: i64, target_week: i32, target_day: i32) -> (r: Option<
    Result<String, String>,
>)
    ensures
        (target_week >= 1 && 1 <= target_day <= 7 && !target_representable(
            first_day,
            target_week,
            target_day,
        )) <==> r is None,
        r matches Some(x) ==> result_view(x) == calculated_date(first_day, target_week, target_day),
{
    if target_week >= 1 && 1 <= target_day && target_day <= 7 {
        match utc_day_number_of(first_day) {
            Some(n) => {
                let t: i64 = n as i64 + 7 * (target_week as i64 - 1) + (target_day as i64 - 1);
                if t < i32::MIN as i64 || t > i32::MAX as i64 {
                    return None;
                }
                if month_day_of_day_number(t as i32).is_none() {
                    return None;
                }
            },
            None => {},
        }
    }
    Some(calculate_date(first_day, target_week, target_day))
}

/// An ASCII letter or digit.
pub open spec fn is_ascii_alnum(c: char) -> bool {
    ('0' <= c && c <= '9') || ('a' <= c && c <= 'z') || ('A' <= c && c <= 'Z')
}

pub open spec fn ascii_lower(c: char) -> char {
    if 'A' <= c && c <= 'Z' {
        ((c as u32) + 32) as char
    } else {
        c
    }
}

/// An image extension is kept, lower-cased, when it is 2 to 5 ASCII letters
/// or digits (for ASCII text, characters and bytes are the same count);
/// anything else becomes "jpg".
pub open spec fn sanitized_ext(ext: Option<Seq<char>>) -> Seq<char> {
    match ext {
        Some(e) => if 2 <= e.len() <= 5 && (forall|i: int|
            0 <= i < e.len() ==> is_ascii_alnum(#[trigger] e[i])) {
            e.map_values(|c: char| ascii_lower(c))
        } else {
            "jpg"@
        },
        None => "jpg"@,
    }
}

/// The extension under which the uncropped image is stored.
pub fn sanitize_ext(ext: Option<String>) -> (r: String)
    ensures
        r@ == sanitized_ext(match ext {
            Some(e) => Some(e@),
            None => None,
        }),
{
    match ext {
        Some(e) => {
            let cs = chars_of(e.as_str());
            let len = cs.len();
            if len < 2 || len > 5 {
                return owned("jpg");
            }
            let mut out: Vec<char> = Vec::new();
            let mut ok = true;
            let mut i: usize = 0;
            while i < cs.len() && ok
                invariant
                    i <= cs.len(),
                    ok ==> forall|j: int| 0 <= j < i ==> is_ascii_alnum(#[trigger] cs@[j]),
                    !ok ==> exists|j: int| 0 <= j < cs.len() && !is_ascii_alnum(#[trigger] cs@[j]),
                    ok ==> out@ == cs@.take(i as int).map_values(|c: char| ascii_lower(c)),
                decreases cs.len() - i + (if ok { 1int } else { 0int }),
            {
                let c = cs[i];
                if !(('0' <= c && c <= '9') || ('a' <= c && c <= 'z') || ('A' <= c && c <= 'Z')) {
                    ok = false;
                    assert(!is_ascii_alnum(cs@[i as int]));
                } else {
                    let lower = if 'A' <= c && c <= 'Z' {
                        char_plus_32(c)
                    } else {
                        c
                    };
                    out.push(lower);
                    proof {
                        assert(cs@.take(i + 1).map_values(|c: char| ascii_lower(c)) =~= cs@.take(
                            i as int,
                        ).map_values(|c: char| ascii_lower(c)).push(ascii_lower(c)));
                    }
                    i = i + 1;
                }
            }
            if !ok {
                return owned("jpg");
            }
            proof {
                assert(cs@.take(cs.len() as int) =~= cs@);
            }
            string_of(&out)
        },
        None => owned("jpg"),
    }
}

/// The lower-case letter of an upper-case ASCII letter.
fn char_plus_32(c: char) -> (r: char)
    requires
        'A' <= c && c <= 'Z',
    ensures
        r == ascii_lower(c),
{
    if c == 'A' { 'a' } else if c == 'B' { 'b' } else if c == 'C' { 'c' } else if c == 'D' { 'd' }
    else if c == 'E' { 'e' } else if c == 'F' { 'f' } else if c == 'G' { 'g' } else if c == 'H' { 'h' }
    else if c == 'I' { 'i' } else if c == 'J' { 'j' } else if c == 'K' { 'k' } else if c == 'L' { 'l' }
    else if c == 'M' { 'm' } else if c == 'N' { 'n' } else if c == 'O' { 'o' } else if c == 'P' { 'p' }
    else if c == 'Q' { 'q' } else if c == 'R' { 'r' } else if c == 'S' { 's' } else if c == 'T' { 't' }
    else if c == 'U' { 'u' } else if c == 'V' { 'v' } else if c == 'W' { 'w' } else if c == 'X' { 'x' }
    else if c == 'Y' { 'y' } else { 'z' }
}

/// Where an uploaded background image was stored.
#[derive(Debug)]
pub struct BackgroundUploadResult {
    pub image_path: String,
    pub original_path: Option<String>,
}

/// A downloaded semester calendar and when it was fetched.
pub struct SemesterCalendarCache {
    pub fetched_at: i64,
    pub calendar: SemesterCalendar,
}

/// The cache entry for a downloaded calendar text fetched at `now`; `None`
/// when the text holds no valid entry (the old cache then stays).
pub fn calendar_cache_from(text: &str, now: i64) -> (r: Option<SemesterCalendarCache>)
    ensures
        match r {
            Some(c) => c.fetched_at == now && c.calendar.wf() && calendar_of_text(text@) == Some(
                c.calendar@,
            ),
            None => calendar_of_text(text@) is None,
        },
{
    match parse_calendar_text(text) {
        Some(calendar) => Some(SemesterCalendarCache { fetched_at: now, calendar }),
        None => None,
    }
}

proof fn lemma_max_sort_index_bounds(s: Seq<Option<i32>>, k: int)
    requires
        0 <= k < s.len(),
        s[k] is Some,
    ensures
        max_sort_index(s) matches Some(m) && m >= s[k]->0,
    decreases s.len(),
{
    if k < s.len() - 1 {
        lemma_max_sort_index_bounds(s.drop_last(), k);
    }
}

/// A newly added schedule sorts after every schedule with a sort position.
pub proof fn law_next_sort_index_is_last(indices: Seq<Option<i32>>, k: int)
    requires
        0 <= k < indices.len(),
        indices[k] is Some,
    ensures
        (match max_sort_index(indices) {
            Some(m) => m + 1,
            None => 0,
        }) > indices[k]->0,
{
    lemma_max_sort_index_bounds(indices, k);
}

/// Filtering a sequence whose elements all pass keeps it whole.
proof fn lemma_filter_keeps_all(s: Seq<CourseView>, pred: spec_fn(CourseView) -> bool)
    requires
        forall|i: int| 0 <= i < s.len() ==> pred(#[trigger] s[i]),
    ensures
        s.filter(pred) == s,
    decreases s.len(),
{
    reveal(Seq::filter);
    if s.len() > 0 {
        lemma_filter_keeps_all(s.drop_last(), pred);
        assert(pred(s[s.len() - 1]));
        assert(s.drop_last().push(s.last()) =~= s);
    }
}

/// Filtering a sequence whose elements all fail leaves nothing.
proof fn lemma_filter_keeps_none(s: Seq<CourseView>, pred: spec_fn(CourseView) -> bool)
    requires
        forall|i: int| 0 <= i < s.len() ==> !pred(#[trigger] s[i]),
    ensures
        s.filter(pred) == Seq::<CourseView>::empty(),
    decreases s.len(),
{
    reveal(Seq::filter);
    if s.len() > 0 {
        lemma_filter_keeps_none(s.drop_last(), pred);
        assert(!pred(s[s.len() - 1]));
    }
}

/// Importing the same exams a second time leaves the schedule as the first
/// import left it: the earlier exams are replaced, not kept beside the new.
pub proof fn law_exam_import_replaces(courses: Seq<CourseView>, exams: Seq<CourseView>)
    requires
        forall|i: int| 0 <= i < exams.len() ==> (#[trigger] exams[i]).course_type == CourseType::Exam,
    ensures
        ({
            let once = courses.filter(not_of_type(CourseType::Exam)) + exams;
            once.filter(not_of_type(CourseType::Exam)) + exams == once
        }),
{
    broadcast use vstd::seq_lib::group_filter_ensures;
    let regular = courses.filter(not_of_type(CourseType::Exam));
    Seq::filter_distributes_over_add(regular, exams, not_of_type(CourseType::Exam));
    lemma_filter_keeps_none(exams, not_of_type(CourseType::Exam));
    assert(regular.filter(not_of_type(CourseType::Exam)) =~= regular) by {
        lemma_filter_keeps_all(regular, not_of_type(CourseType::Exam));
    }
}

/// Refreshing a schedule twice keeps its exams: when the first refresh
/// fetched no exams, the second gives the stored exams followed by what it
/// fetched, as a single refresh would.
pub proof fn law_refresh_keeps_exams(stored: Seq<CourseView>, first: Seq<CourseView>, second: Seq<CourseView>)
    requires
        forall|i: int| 0 <= i < first.len() ==> (#[trigger] first[i]).course_type != CourseType::Exam,
    ensures
        ({
            let once = stored.filter(of_type(CourseType::Exam)) + first;
            once.filter(of_type(CourseType::Exam)) + second == stored.filter(of_type(CourseType::Exam))
                + second
        }),
{
    broadcast use vstd::seq_lib::group_filter_ensures;
    let exams = stored.filter(of_type(CourseType::Exam));
    Seq::filter_distributes_over_add(exams, first, of_type(CourseType::Exam));
    lemma_filter_keeps_none(first, of_type(CourseType::Exam));
    assert(exams.filter(of_type(CourseType::Exam)) =~= exams) by {
        lemma_filter_keeps_all(exams, of_type(CourseType::Exam));
    }
}

} // verus!
