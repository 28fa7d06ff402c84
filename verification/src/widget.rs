//! The data shown by the home-screen widget: the current teaching week, the
//! date, and the courses of the schedule with their times, sorted by day and
//! period.
use vstd::prelude::*;
use crate::text::{chars_of, replace_all, replace_all_exec, string_of, trim, trim_exec};
use crate::weeks::{keeps_week, keeps_week_exec};
use crate::models::{AppConfig, CachedSchedule, Course, CourseType, CourseView, PeriodTime, courses_view};
use crate::numbers::{decimal, decimal_nat, decimal_nat_exec};
use crate::dates::{clock_difference_fits, clock_reading, east8_date, offset_fields, utc_now};
use crate::exams::join;
use crate::courses::owned;

verus! {

/// Seconds in a week.
pub const WEEK_SECS: i64 = 7 * 24 * 60 * 60;

/// `a / b` rounded toward zero, as Rust divides integers.
pub open spec fn div_toward_zero(a: int, b: int) -> int {
    if a >= 0 {
        a / b
    } else {
        -((-a) / b)
    }
}

/// The teaching week at time `now_ts`: weeks since `first_day` (rounded
/// toward zero) plus one, at least 1 (1 without a first day), converted to
/// `i32`, then kept within 1..=`weeks_count` when a positive week count is
/// set, else at least 1.
pub open spec fn current_week(now_ts: i64, first_day: Option<i64>, weeks_count: Option<i32>) -> i32 {
    let week: i32 = match first_day {
        Some(fd) => {
            let w = div_toward_zero(now_ts - fd, WEEK_SECS as int) + 1;
            (if w < 1 {
                1
            } else {
                w
            }) as i32
        },
        None => 1,
    };
    match weeks_count {
        Some(m) => if m > 0 {
            if week < 1 {
                1
            } else if week > m {
                m
            } else {
                week
            }
        } else if week < 1 {
            1
        } else {
            week
        },
        None => if week < 1 {
            1
        } else {
            week
        },
    }
}

/// The teaching week at time `now_ts` for a schedule starting at `first_day`
/// with `weeks_count` weeks.
pub fn compute_current_week(now_ts: i64, first_day: Option<i64>, weeks_count: Option<i32>) -> (r:
    i32)
    requires
        first_day matches Some(fd) ==> i64::MIN <= now_ts - fd <= i64::MAX,
    ensures
        r == current_week(now_ts, first_day, weeks_count),
{
    let week: i32 = match first_day {
        Some(fd) => {
            let d: i64 = now_ts - fd;
            let q: i64 = if d >= 0 {
                assert(d / 604800 <= d) by (nonlinear_arith)
                    requires
                        d >= 0,
                ;
                d / WEEK_SECS
            } else {
                let m: u64 = (-(d + 1)) as u64 + 1;
                assert(m == -d);
                assert(m / 604800 <= m) by (nonlinear_arith);
                -((m / 604800) as i64)
            };
            let w: i64 = q + 1;
            let kept: i64 = if w < 1 {
                1
            } else {
                w
            };
            #[verifier::truncate]
            (kept as i32)
        },
        None => 1,
    };
    match weeks_count {
        Some(m) => {
            if m > 0 {
                if week < 1 {
                    1
                } else if week > m {
                    m
                } else {
                    week
                }
            } else if week < 1 {
                1
            } else {
                week
            }
        },
        None => {
            if week < 1 {
                1
            } else {
                week
            }
        },
    }
}

/// Whether a course with the weeks `weeks` and the week type `week_type`
/// meets in week `week`.
pub fn is_week_in_ranges(weeks: &[i32], week_type: i32, week: i32) -> (r: bool)
    ensures
        r == (weeks@.contains(week) && keeps_week(week_type, week as int)),
{
    let mut i: usize = 0;
    while i < weeks.len()
        invariant
            i <= weeks.len(),
            forall|j: int| 0 <= j < i ==> weeks@[j] != week,
        decreases weeks.len() - i,
    {
        if weeks[i] == week {
            return keeps_week_exec(week_type, week);
        }
        i = i + 1;
    }
    false
}

/// The name of a weekday (1 = "星期一" .. 7 = "星期日"), empty for anything else.
pub open spec fn day_name(day: i32) -> Seq<char> {
    if day == 1 {
        "星期一"@
    } else if day == 2 {
        "星期二"@
    } else if day == 3 {
        "星期三"@
    } else if day == 4 {
        "星期四"@
    } else if day == 5 {
        "星期五"@
    } else if day == 6 {
        "星期六"@
    } else if day == 7 {
        "星期日"@
    } else {
        Seq::empty()
    }
}

/// The name of a weekday.
pub fn get_day_name(day: i32) -> (r: String)
    ensures
        r@ == day_name(day),
{
    if day == 1 {
        owned("星期一")
    } else if day == 2 {
        owned("星期二")
    } else if day == 3 {
        owned("星期三")
    } else if day == 4 {
        owned("星期四")
    } else if day == 5 {
        owned("星期五")
    } else if day == 6 {
        owned("星期六")
    } else if day == 7 {
        owned("星期日")
    } else {
        String::new()
    }
}

/// The views of a period time table: (start, end) of each period.
pub open spec fn table_view(t: Seq<PeriodTime>) -> Seq<(Seq<char>, Seq<char>)> {
    t.map_values(|p: PeriodTime| (p.start@, p.end@))
}

/// The start of period `p` (numbered from 1) in the table, empty when the
/// table has no such period.
pub open spec fn period_start_text(table: Seq<(Seq<char>, Seq<char>)>, p: i32) -> Seq<char> {
    if 1 <= p && p - 1 < table.len() {
        table[p - 1].0
    } else {
        Seq::empty()
    }
}

/// The end of period `p` (numbered from 1) in the table, empty when the
/// table has no such period.
pub open spec fn period_end_text(table: Seq<(Seq<char>, Seq<char>)>, p: i32) -> Seq<char> {
    if 1 <= p && p - 1 < table.len() {
        table[p - 1].1
    } else {
        Seq::empty()
    }
}

/// The start time of a course's first period and the end time of its last
/// period; both empty for a course without periods.
pub open spec fn course_times(c: CourseView, table: Seq<(Seq<char>, Seq<char>)>) -> (
    Seq<char>,
    Seq<char>,
) {
    if c.periods.len() == 0 {
        (Seq::empty(), Seq::empty())
    } else {
        (period_start_text(table, c.periods[0]), period_end_text(table, c.periods.last()))
    }
}

/// The start time of a course's first period and the end time of its last
/// period, looked up in `time_table`.
pub fn get_course_time_string(course: &Course, time_table: &[PeriodTime]) -> (r: (String, String))
    ensures
        (r.0@, r.1@) == course_times(course@, table_view(time_table@)),
{
    let n = course.periods.len();
    if n == 0 {
        return (String::new(), String::new());
    }
    let first = course.periods[0];
    let last = course.periods[n - 1];
    let start_time = if first >= 1 && ((first - 1) as usize) < time_table.len() {
        time_table[(first - 1) as usize].start.clone()
    } else {
        String::new()
    };
    let end_time = if last >= 1 && ((last - 1) as usize) < time_table.len() {
        time_table[(last - 1) as usize].end.clone()
    } else {
        String::new()
    };
    (start_time, end_time)
}

/// A location without its campus names ("沙河校区", "学院南路校区", "沙河",
/// "南路", "学院南路", removed in that order), trimmed; unchanged when not
/// simplified.
pub open spec fn location_text(location: Seq<char>, simplified: bool) -> Seq<char> {
    if !simplified {
        location
    } else {
        let e = Seq::<char>::empty();
        let l1 = replace_all(location, "沙河校区"@, e);
        let l2 = replace_all(l1, "学院南路校区"@, e);
        let l3 = replace_all(l2, "沙河"@, e);
        let l4 = replace_all(l3, "南路"@, e);
        trim(replace_all(l4, "学院南路"@, e))
    }
}

/// The location as the widget shows it.
pub fn format_location(location: &str, simplified: bool) -> (r: String)
    ensures
        r@ == location_text(location@, simplified),
{
    if !simplified {
        return owned(location);
    }
    let e: Vec<char> = Vec::new();
    let s = chars_of(location);
    let p1 = chars_of("沙河校区");
    let p2 = chars_of("学院南路校区");
    let p3 = chars_of("沙河");
    let p4 = chars_of("南路");
    let p5 = chars_of("学院南路");
    proof {
        assert(e@ =~= Seq::<char>::empty());
        reveal_strlit("沙河校区");
        reveal_strlit("学院南路校区");
        reveal_strlit("沙河");
        reveal_strlit("南路");
        reveal_strlit("学院南路");
    }
    let l1 = replace_all_exec(&s, &p1, &e);
    let l2 = replace_all_exec(&l1, &p2, &e);
    let l3 = replace_all_exec(&l2, &p3, &e);
    let l4 = replace_all_exec(&l3, &p4, &e);
    let l5 = replace_all_exec(&l4, &p5, &e);
    string_of(&trim_exec(&l5))
}

/// One course as the widget shows it.
#[derive(Debug)]
pub struct WidgetCourseInfo {
    pub name: String,
    pub location: String,
    pub start_time: String,
    pub end_time: String,
    pub day_of_week: i32,
    pub weeks: Vec<i32>,
    pub week_type: i32,
    pub period_start: i32,
    pub period_end: i32,
}

/// The mathematical value of a [`WidgetCourseInfo`].
pub struct WidgetCourseView {
    pub name: Seq<char>,
    pub location: Seq<char>,
    pub start_time: Seq<char>,
    pub end_time: Seq<char>,
    pub day_of_week: i32,
    pub weeks: Seq<i32>,
    pub week_type: i32,
    pub period_start: i32,
    pub period_end: i32,
}

impl View for WidgetCourseInfo {
    type V = WidgetCourseView;

    open spec fn view(&self) -> WidgetCourseView {
        WidgetCourseView {
            name: self.name@,
            location: self.location@,
            start_time: self.start_time@,
            end_time: self.end_time@,
            day_of_week: self.day_of_week,
            weeks: self.weeks@,
            week_type: self.week_type,
            period_start: self.period_start,
            period_end: self.period_end,
        }
    }
}

/// Everything the widget shows.
#[derive(Debug)]
pub struct WidgetData {
    pub schema_version: i32,
    pub generated_at: i64,
    pub first_day: Option<i64>,
    pub weeks_count: Option<i32>,
    pub current_week: i32,
    pub current_date: String,
    pub current_day_of_week: i32,
    pub day_name: String,
    pub courses: Vec<WidgetCourseInfo>,
    pub is_empty: bool,
    pub message: Option<String>,
}

/// The views of a list of widget courses.
pub open spec fn widget_views(s: Seq<WidgetCourseInfo>) -> Seq<WidgetCourseView> {
    s.map_values(|c: WidgetCourseInfo| c@)
}

/// How the widget shows a course, given the period time table.
pub open spec fn widget_course(
    c: CourseView,
    table: Seq<(Seq<char>, Seq<char>)>,
    simplified: bool,
) -> WidgetCourseView {
    WidgetCourseView {
        name: c.name,
        location: location_text(c.location, simplified),
        start_time: course_times(c, table).0,
        end_time: course_times(c, table).1,
        day_of_week: c.day_of_week,
        weeks: c.weeks,
        week_type: c.week_type,
        period_start: if c.periods.len() > 0 {
            c.periods[0]
        } else {
            1
        },
        period_end: if c.periods.len() > 0 {
            c.periods.last()
        } else {
            1
        },
    }
}

/// The courses (exams left out) as the widget shows them, in schedule order.
pub open spec fn widget_courses(
    cs: Seq<CourseView>,
    table: Seq<(Seq<char>, Seq<char>)>,
    simplified: bool,
) -> Seq<WidgetCourseView>
    decreases cs.len(),
{
    if cs.len() == 0 {
        Seq::empty()
    } else {
        let prev = widget_courses(cs.drop_last(), table, simplified);
        if cs.last().course_type == CourseType::Exam {
            prev
        } else {
            prev.push(widget_course(cs.last(), table, simplified))
        }
    }
}

/// `a` comes no later than `b` by day, then by first period.
pub open spec fn key_le(a: WidgetCourseView, b: WidgetCourseView) -> bool {
    a.day_of_week < b.day_of_week || (a.day_of_week == b.day_of_week && a.period_start
        <= b.period_start)
}

/// `a` and `b` have the same day and first period.
pub open spec fn same_key(a: WidgetCourseView, b: WidgetCourseView) -> bool {
    a.day_of_week == b.day_of_week && a.period_start == b.period_start
}

/// `p` lists each of 0..n once.
pub open spec fn is_permutation(p: Seq<int>, n: nat) -> bool {
    &&& p.len() == n
    &&& forall|i: int| 0 <= i < p.len() ==> 0 <= #[trigger] p[i] < n
    &&& forall|i: int, j: int| 0 <= i < j < p.len() ==> p[i] != p[j]
}

/// `r` is `s` reordered by `p`, sorted by day and first period, with courses
/// of the same day and period in their original order.
pub open spec fn stably_sorted_by(s: Seq<WidgetCourseView>, r: Seq<WidgetCourseView>, p: Seq<int>) -> bool {
    &&& is_permutation(p, s.len())
    &&& r.len() == s.len()
    &&& forall|i: int| 0 <= i < r.len() ==> #[trigger] r[i] == s[p[i]]
    &&& forall|i: int, j: int| 0 <= i < j < r.len() ==> key_le(r[i], r[j])
    &&& forall|i: int, j: int| 0 <= i < j < r.len() && same_key(r[i], r[j]) ==> p[i] < p[j]
}

/// `r` is the stable sort of `s` by day and first period.
pub open spec fn stable_sort_of(s: Seq<WidgetCourseView>, r: Seq<WidgetCourseView>) -> bool {
    exists|p: Seq<int>| stably_sorted_by(s, r, p)
}

/// Sorts widget courses by day, then first period, keeping the order of
/// courses with the same day and period.
pub fn sort_widget_courses(v: Vec<WidgetCourseInfo>) -> (r: Vec<WidgetCourseInfo>)
    ensures
        stable_sort_of(widget_views(v@), widget_views(r@)),
{
    let ghost orig = widget_views(v@);
    let mut input = v;
    let mut out: Vec<WidgetCourseInfo> = Vec::new();
    let ghost mut p: Seq<int> = Seq::empty();
    let mut n: usize = 0;
    let total: usize = input.len();
    proof {
        assert(widget_views(input@) =~= orig.skip(0));
    }
    while input.len() > 0
        invariant
            n + input.len() == orig.len(),
            orig.len() == total,
            widget_views(input@) == orig.skip(n as int),
            stably_sorted_by(orig.take(n as int), widget_views(out@), p),
        decreases input.len(),
    {
        let ghost ov = widget_views(out@);
        let ghost before = input@;
        let x = input.remove(0);
        proof {
            assert(widget_views(before)[0] == before[0]@);
            assert(orig.skip(n as int)[0] == x@);
            assert forall|i: int| 0 <= i < input@.len() implies #[trigger] widget_views(input@)[i]
                == orig.skip(n + 1)[i] by {
                assert(input@[i] == before[i + 1]);
                assert(widget_views(before)[i + 1] == orig.skip(n as int)[i + 1]);
            }
            assert(widget_views(input@) =~= orig.skip(n + 1));
        }
        let mut pos: usize = 0;
        while pos < out.len() && (out[pos].day_of_week < x.day_of_week || (out[pos].day_of_week
            == x.day_of_week && out[pos].period_start <= x.period_start))
            invariant
                pos <= out.len(),
                ov == widget_views(out@),
                forall|j: int| 0 <= j < pos ==> key_le(#[trigger] ov[j], x@),
            decreases out.len() - pos,
        {
            pos = pos + 1;
        }
        let ghost xv = x@;
        out.insert(pos, x);
        proof {
            let s0 = orig.take(n as int);
            let s1 = orig.take(n + 1);
            let nv = widget_views(out@);
            let p1 = p.insert(pos as int, n as int);
            assert(nv =~= ov.insert(pos as int, xv));
            assert(s1 =~= s0.push(xv));
            assert forall|i: int| 0 <= i < p1.len() implies 0 <= #[trigger] p1[i] < s1.len() by {
                if i < pos {
                    assert(p1[i] == p[i]);
                } else if i > pos {
                    assert(p1[i] == p[i - 1]);
                }
            }
            assert forall|i: int, j: int| 0 <= i < j < p1.len() implies p1[i] != p1[j] by {
                if j < pos {
                } else if j == pos {
                    assert(p1[i] == p[i]);
                } else if i < pos {
                    assert(p1[j] == p[j - 1]);
                } else if i == pos {
                    assert(p1[j] == p[j - 1]);
                } else {
                    assert(p1[i] == p[i - 1]);
                    assert(p1[j] == p[j - 1]);
                }
            }
            assert forall|i: int| 0 <= i < nv.len() implies #[trigger] nv[i] == s1[p1[i]] by {
                if i < pos {
                    assert(nv[i] == ov[i]);
                    assert(p1[i] == p[i]);
                } else if i > pos {
                    assert(nv[i] == ov[i - 1]);
                    assert(p1[i] == p[i - 1]);
                }
            }
            assert forall|i: int, j: int| 0 <= i < j < nv.len() implies key_le(nv[i], nv[j]) by {
                if j < pos {
                    assert(nv[i] == ov[i] && nv[j] == ov[j]);
                } else if j == pos {
                    assert(nv[i] == ov[i]);
                } else if i < pos {
                    assert(nv[i] == ov[i] && nv[j] == ov[j - 1]);
                    assert(key_le(ov[i], xv));
                    assert(!key_le(ov[pos as int], xv));
                    if pos < j - 1 {
                        assert(key_le(ov[pos as int], ov[j - 1]));
                    }
                } else if i == pos {
                    assert(nv[j] == ov[j - 1]);
                    assert(!key_le(ov[pos as int], xv));
                    if pos < j - 1 {
                        assert(key_le(ov[pos as int], ov[j - 1]));
                    }
                } else {
                    assert(nv[i] == ov[i - 1] && nv[j] == ov[j - 1]);
                }
            }
            assert forall|i: int, j: int|
                0 <= i < j < nv.len() && same_key(nv[i], nv[j]) implies p1[i] < p1[j] by {
                if j < pos {
                    assert(nv[i] == ov[i] && nv[j] == ov[j]);
                    assert(p1[i] == p[i] && p1[j] == p[j]);
                } else if j == pos {
                    assert(p1[i] == p[i]);
                } else if i < pos {
                    assert(nv[i] == ov[i] && nv[j] == ov[j - 1]);
                    assert(p1[i] == p[i] && p1[j] == p[j - 1]);
                } else if i == pos {
                    assert(nv[j] == ov[j - 1]);
                    assert(!key_le(ov[pos as int], xv));
                    if pos < j - 1 {
                        assert(key_le(ov[pos as int], ov[j - 1]));
                    }
                } else {
                    assert(nv[i] == ov[i - 1] && nv[j] == ov[j - 1]);
                    assert(p1[i] == p[i - 1] && p1[j] == p[j - 1]);
                }
            }
            assert(stably_sorted_by(s1, nv, p1));
            p = p1;
        }
        n = n + 1;
    }
    proof {
        assert(orig.take(n as int) =~= orig);
    }
    out
}

/// The period table used when none is configured.
pub open spec fn default_period_table() -> Seq<(Seq<char>, Seq<char>)> {
    seq![
        ("8:00"@, "8:45"@),
        ("8:55"@, "9:40"@),
        ("10:00"@, "10:45"@),
        ("10:55"@, "11:40"@),
        ("11:50"@, "12:35"@),
        ("12:45"@, "13:30"@),
        ("14:00"@, "14:45"@),
        ("14:55"@, "15:40"@),
        ("16:00"@, "16:45"@),
        ("16:55"@, "17:40"@),
        ("17:50"@, "18:35"@),
        ("19:20"@, "20:05"@),
        ("20:15"@, "21:00"@),
    ]
}

/// The position of the first time table with the id `id`.
pub open spec fn first_table_with_id(tables: Seq<crate::models::TimeTable>, id: Seq<char>) -> Option<int>
    decreases tables.len(),
{
    if tables.len() == 0 {
        None
    } else if tables[0].id@ == id {
        Some(0)
    } else {
        match first_table_with_id(tables.drop_first(), id) {
            Some(i) => Some(i + 1),
            None => None,
        }
    }
}

/// The period table the widget uses for a schedule: with time tables
/// configured, the one the schedule names (or the first one when it names
/// none); otherwise the configured period times; the default table when
/// that gives nothing.
pub open spec fn chosen_table(config: AppConfig, time_table_id: Option<String>) -> Seq<
    (Seq<char>, Seq<char>),
> {
    let chosen = match config.time_tables {
        Some(tables) => match time_table_id {
            Some(id) => match first_table_with_id(tables@, id@) {
                Some(i) => Some(table_view(tables@[i].periods@)),
                None => None,
            },
            None => if tables@.len() > 0 {
                Some(table_view(tables@[0].periods@))
            } else {
                None
            },
        },
        None => match config.period_times {
            Some(pt) => Some(table_view(pt@)),
            None => None,
        },
    };
    match chosen {
        Some(t) => t,
        None => default_period_table(),
    }
}

/// A copy of a period table.
fn copy_periods(t: &[PeriodTime]) -> (r: Vec<PeriodTime>)
    ensures
        table_view(r@) == table_view(t@),
{
    let mut r: Vec<PeriodTime> = Vec::new();
    let mut i: usize = 0;
    while i < t.len()
        invariant
            i <= t.len(),
            r@.len() == i,
            table_view(r@) == table_view(t@).take(i as int),
        decreases t.len() - i,
    {
        let ghost before = r@;
        r.push(PeriodTime { start: t[i].start.clone(), end: t[i].end.clone() });
        proof {
            assert forall|k: int| 0 <= k < i + 1 implies #[trigger] table_view(r@)[k] == table_view(
                t@,
            ).take(i + 1)[k] by {
                if k < i {
                    assert(r@[k] == before[k]);
                    assert(table_view(before)[k] == table_view(t@).take(i as int)[k]);
                }
            }
            assert(table_view(r@) =~= table_view(t@).take(i + 1));
        }
        i = i + 1;
    }
    proof {
        assert(table_view(t@).take(t.len() as int) =~= table_view(t@));
    }
    r
}

/// The default period table.
fn default_periods() -> (r: Vec<PeriodTime>)
    ensures
        table_view(r@) == default_period_table(),
{
    let r = vec![
        PeriodTime { start: owned("8:00"), end: owned("8:45") },
        PeriodTime { start: owned("8:55"), end: owned("9:40") },
        PeriodTime { start: owned("10:00"), end: owned("10:45") },
        PeriodTime { start: owned("10:55"), end: owned("11:40") },
        PeriodTime { start: owned("11:50"), end: owned("12:35") },
        PeriodTime { start: owned("12:45"), end: owned("13:30") },
        PeriodTime { start: owned("14:00"), end: owned("14:45") },
        PeriodTime { start: owned("14:55"), end: owned("15:40") },
        PeriodTime { start: owned("16:00"), end: owned("16:45") },
        PeriodTime { start: owned("16:55"), end: owned("17:40") },
        PeriodTime { start: owned("17:50"), end: owned("18:35") },
        PeriodTime { start: owned("19:20"), end: owned("20:05") },
        PeriodTime { start: owned("20:15"), end: owned("21:00") },
    ];
    assert(table_view(r@) =~= default_period_table());
    r
}

/// The period table the widget uses for a schedule.
fn choose_table(config: &AppConfig, time_table_id: &Option<String>) -> (r: Vec<PeriodTime>)
    ensures
        table_view(r@) == chosen_table(*config, *time_table_id),
{
    match &config.time_tables {
        Some(tables) => {
            match time_table_id {
                Some(id) => {
                    let mut i: usize = 0;
                    proof {
                        assert(tables@.skip(0) =~= tables@);
                    }
                    while i < tables.len()
                        invariant
                            i <= tables.len(),
                            config.time_tables == Some(*tables),
                            *time_table_id == Some(*id),
                            first_table_with_id(tables@, id@) == match first_table_with_id(
                                tables@.skip(i as int),
                                id@,
                            ) {
                                Some(j) => Some(j + i),
                                None => None,
                            },
                        decreases tables.len() - i,
                    {
                        proof {
                            assert(tables@.skip(i as int)[0] == tables@[i as int]);
                            assert(tables@.skip(i as int).drop_first() =~= tables@.skip(i + 1));
                        }
                        if tables[i].id == *id {
                            proof {
                                assert(first_table_with_id(tables@.skip(i as int), id@) == Some(0int));
                            }
                            return copy_periods(&tables[i].periods);
                        }
                        i = i + 1;
                    }
                    default_periods()
                },
                None => {
                    if tables.len() > 0 {
                        copy_periods(&tables[0].periods)
                    } else {
                        default_periods()
                    }
                },
            }
        },
        None => match &config.period_times {
            Some(pt) => copy_periods(pt),
            None => default_periods(),
        },
    }
}

/// The courses of `cs` (exams left out) as the widget shows them.
fn collect_widget_courses(cs: &[Course], table: &[PeriodTime], simplified: bool) -> (r: Vec<
    WidgetCourseInfo,
>)
    ensures
        widget_views(r@) == widget_courses(courses_view(cs@), table_view(table@), simplified),
{
    let ghost cv = courses_view(cs@);
    let mut out: Vec<WidgetCourseInfo> = Vec::new();
    let mut i: usize = 0;
    proof {
        assert(cv.take(0) =~= Seq::<CourseView>::empty());
        assert(widget_views(out@) =~= Seq::<WidgetCourseView>::empty());
    }
    while i < cs.len()
        invariant
            i <= cs.len(),
            cv == courses_view(cs@),
            widget_views(out@) == widget_courses(cv.take(i as int), table_view(table@), simplified),
        decreases cs.len() - i,
    {
        let c = &cs[i];
        proof {
            assert(cv.take(i + 1).drop_last() =~= cv.take(i as int));
            assert(cv.take(i + 1).last() == c@);
        }
        if c.course_type != CourseType::Exam {
            let (start_time, end_time) = get_course_time_string(c, table);
            let n = c.periods.len();
            let info = WidgetCourseInfo {
                name: c.name.clone(),
                location: format_location(c.location.as_str(), simplified),
                start_time,
                end_time,
                day_of_week: c.day_of_week,
                weeks: crate::models::copy_ints(&c.weeks),
                week_type: c.week_type,
                period_start: if n > 0 {
                    c.periods[0]
                } else {
                    1
                },
                period_end: if n > 0 {
                    c.periods[n - 1]
                } else {
                    1
                },
            };
            let ghost before = out@;
            out.push(info);
            proof {
                assert(widget_views(out@) =~= widget_views(before).push(
                    widget_course(c@, table_view(table@), simplified),
                ));
            }
        }
        i = i + 1;
    }
    proof {
        assert(cv.take(cs.len() as int) =~= cv);
    }
    out
}

/// Some course meets on day `day` in week `week`.
pub open spec fn has_course_on(cs: Seq<WidgetCourseView>, day: i32, week: i32) -> bool {
    exists|i: int|
        0 <= i < cs.len() && (#[trigger] cs[i]).day_of_week == day && cs[i].weeks.contains(week)
            && keeps_week(cs[i].week_type, week as int)
}

/// The message shown when no course is left today.
pub open spec fn no_course_message() -> Seq<char> {
    "课程结束啦 🎉"@
}

/// "M月D日".
pub open spec fn month_day_text(month: u32, day: u32) -> Seq<char> {
    decimal(month as int) + "月"@ + decimal(day as int) + "日"@
}

/// The first day and week count that apply: the schedule's, else the
/// configuration's.
pub open spec fn applied_first_day(config: AppConfig, schedule: Option<&CachedSchedule>) -> Option<i64> {
    match schedule {
        Some(s) => match s.first_day {
            Some(fd) => Some(fd),
            None => config.first_day,
        },
        None => config.first_day,
    }
}

pub open spec fn applied_weeks_count(config: AppConfig, schedule: Option<&CachedSchedule>) -> Option<i32> {
    match schedule {
        Some(s) => match s.weeks_count {
            Some(w) => Some(w),
            None => config.end_week,
        },
        None => config.end_week,
    }
}

/// `d` is what the widget shows at time `now_ts` (whose date at UTC+8 is in
/// month `month`, day `day`, weekday `weekday` counted from Monday = 0) for
/// the configuration and the current schedule (`None` when there is none).
pub open spec fn widget_data_spec(
    now_ts: i64,
    month: u32,
    day: u32,
    weekday: u32,
    config: AppConfig,
    schedule: Option<&CachedSchedule>,
    d: WidgetData,
) -> bool {
    let dow = (weekday + 1) as i32;
    let fd = applied_first_day(config, schedule);
    let wc = applied_weeks_count(config, schedule);
    let week = current_week(now_ts, fd, wc);
    let simplified = match config.simplified_location {
        Some(b) => b,
        None => false,
    };
    &&& d.schema_version == 2
    &&& d.generated_at == now_ts
    &&& d.first_day == fd
    &&& d.weeks_count == wc
    &&& d.current_week == week
    &&& d.current_date@ == month_day_text(month, day)
    &&& d.current_day_of_week == dow
    &&& d.day_name@ == day_name(dow)
    &&& match schedule {
        None => d.courses@.len() == 0,
        Some(s) => stable_sort_of(
            widget_courses(
                courses_view(s.courses@),
                chosen_table(config, s.time_table_id),
                simplified,
            ),
            widget_views(d.courses@),
        ),
    }
    &&& d.is_empty == !has_course_on(widget_views(d.courses@), dow, week)
    &&& d.is_empty ==> (d.message matches Some(m) && m@ == no_course_message())
    &&& !d.is_empty ==> d.message is None
}

/// Whether some course meets on `day` in `week`.
fn has_course_on_exec(cs: &[WidgetCourseInfo], day: i32, week: i32) -> (r: bool)
    ensures
        r == has_course_on(widget_views(cs@), day, week),
{
    let ghost v = widget_views(cs@);
    let mut i: usize = 0;
    while i < cs.len()
        invariant
            i <= cs.len(),
            v == widget_views(cs@),
            forall|j: int|
                0 <= j < i ==> !((#[trigger] v[j]).day_of_week == day && v[j].weeks.contains(week)
                    && keeps_week(v[j].week_type, week as int)),
        decreases cs.len() - i,
    {
        proof {
            assert(v[i as int] == cs@[i as int]@);
        }
        if cs[i].day_of_week == day && is_week_in_ranges(&cs[i].weeks, cs[i].week_type, week) {
            return true;
        }
        i = i + 1;
    }
    false
}

/// `r` is the widget data at time `now_ts`: `None` exactly when the time
/// has no date at UTC+8, else what [`widget_data_spec`] describes for that
/// date.
pub open spec fn widget_data_at(
    now_ts: i64,
    config: AppConfig,
    schedule: Option<&CachedSchedule>,
    r: Option<WidgetData>,
) -> bool {
    &&& r is None <==> east8_date(now_ts) is None
    &&& r matches Some(d) ==> ({
        let (month, day, weekday) = east8_date(now_ts)->0;
        widget_data_spec(now_ts, month, day, weekday, config, schedule, d)
    })
}

/// Today's widget data for the configuration and the selected schedule
/// (`None` when none is selected or it cannot be loaded): what
/// [`get_widget_data_at`] gives at the time read from the clock; `None` when
/// the clock gives no time (set before 1970, or beyond what `chrono`
/// represents).
pub fn get_widget_data(config: &AppConfig, schedule: Option<&CachedSchedule>) -> (r: Option<WidgetData>)
    requires
        config.first_day matches Some(fd) ==> clock_difference_fits(fd),
        schedule matches Some(s) ==> (s.first_day matches Some(fd) ==> clock_difference_fits(fd)),
    ensures
        r is Some ==> exists|now: i64| clock_reading(now) && #[trigger] widget_data_at(now, *config, schedule, r),
{
    match utc_now() {
        Some(now) => get_widget_data_at(now, config, schedule),
        None => None,
    }
}

/// The widget data at time `now_ts` (a UNIX timestamp) for the configuration
/// and the current schedule (`None` when none is selected or it cannot be
/// loaded); `None` when `now_ts` is not a representable time.
///
/// The week is counted from the schedule's first day and week count (the
/// configuration's when the schedule has none), the date and weekday are
/// those at UTC+8, and the courses are the schedule's non-exam courses with
/// their period times, sorted by day and first period. The widget is empty,
/// with its "no more courses" message, unless some course meets today in the
/// current week.
pub fn get_widget_data_at(now_ts: i64, config: &AppConfig, schedule: Option<&CachedSchedule>) -> (r:
    Option<WidgetData>)
    requires
        config.first_day matches Some(fd) ==> i64::MIN <= now_ts - fd <= i64::MAX,
        schedule matches Some(s) ==> (s.first_day matches Some(fd) ==> i64::MIN <= now_ts - fd
            <= i64::MAX),
    ensures
        widget_data_at(now_ts, *config, schedule, r),
{
    let (month, day, weekday) = match offset_fields(now_ts, 28800) {
        Some(f) => f,
        None => {
            return None;
        },
    };
    let dow: i32 = (weekday + 1) as i32;
    let mut date_chars = decimal_nat_exec(month as u64);
    date_chars.push('月');
    let day_digits = decimal_nat_exec(day as u64);
    let ghost head = date_chars@;
    let mut k: usize = 0;
    while k < day_digits.len()
        invariant
            k <= day_digits.len(),
            date_chars@ == head + day_digits@.take(k as int),
        decreases day_digits.len() - k,
    {
        date_chars.push(day_digits[k]);
        proof {
            assert(day_digits@.take(k + 1) =~= day_digits@.take(k as int).push(day_digits@[k as int]));
        }
        k = k + 1;
    }
    date_chars.push('日');
    proof {
        assert(day_digits@.take(day_digits.len() as int) =~= day_digits@);
        reveal_strlit("月");
        reveal_strlit("日");
        assert(date_chars@ =~= month_day_text(month, day));
    }
    let current_date = string_of(&date_chars);
    let simplified = match config.simplified_location {
        Some(b) => b,
        None => false,
    };
    match schedule {
        None => {
            let week = compute_current_week(now_ts, config.first_day, config.end_week);
            let courses: Vec<WidgetCourseInfo> = Vec::new();
            proof {
                assert(widget_views(courses@) =~= Seq::<WidgetCourseView>::empty());
            }
            Some(
                WidgetData {
                    schema_version: 2,
                    generated_at: now_ts,
                    first_day: config.first_day,
                    weeks_count: config.end_week,
                    current_week: week,
                    current_date,
                    current_day_of_week: dow,
                    day_name: get_day_name(dow),
                    courses,
                    is_empty: true,
                    message: Some(owned("课程结束啦 🎉")),
                },
            )
        },
        Some(s) => {
            let first_day = match s.first_day {
                Some(fd) => Some(fd),
                None => config.first_day,
            };
            let weeks_count = match s.weeks_count {
                Some(w) => Some(w),
                None => config.end_week,
            };
            let week = compute_current_week(now_ts, first_day, weeks_count);
            let table = choose_table(config, &s.time_table_id);
            let collected = collect_widget_courses(&s.courses, &table, simplified);
            let courses = sort_widget_courses(collected);
            let has_today = has_course_on_exec(&courses, dow, week);
            let is_empty = !has_today;
            let message = if is_empty {
                Some(owned("课程结束啦 🎉"))
            } else {
                None
            };
            Some(
                WidgetData {
                    schema_version: 2,
                    generated_at: now_ts,
                    first_day,
                    weeks_count,
                    current_week: week,
                    current_date,
                    current_day_of_week: dow,
                    day_name: get_day_name(dow),
                    courses,
                    is_empty,
                    message,
                },
            )
        },
    }
}

/// The current week is at least 1, and never beyond a positive week count.
pub proof fn law_current_week_in_bounds(now_ts: i64, first_day: Option<i64>, weeks_count: Option<i32>)
    ensures
        current_week(now_ts, first_day, weeks_count) >= 1,
        (weeks_count matches Some(m) && m > 0) ==> current_week(now_ts, first_day, weeks_count)
            <= weeks_count->0,
{
}

/// Whether the widget has a course today depends only on the courses of
/// today's weekday: a course on another day never makes it busy, and a
/// course on that day that meets in the week (listed, and of the right
/// parity) always does. With no courses it is empty.
pub proof fn law_only_today_counts(cs: Seq<WidgetCourseView>, c: WidgetCourseView, day: i32, week: i32)
    ensures
        !has_course_on(Seq::<WidgetCourseView>::empty(), day, week),
        c.day_of_week != day ==> has_course_on(cs.push(c), day, week) == has_course_on(cs, day, week),
        (c.day_of_week == day && c.weeks.contains(week) && keeps_week(c.week_type, week as int))
            ==> has_course_on(cs.push(c), day, week),
{
    let t = cs.push(c);
    assert(t[cs.len() as int] == c);
    if has_course_on(cs, day, week) {
        let i = choose|i: int|
            0 <= i < cs.len() && (#[trigger] cs[i]).day_of_week == day && cs[i].weeks.contains(week)
                && keeps_week(cs[i].week_type, week as int);
        assert(t[i] == cs[i]);
    }
    if c.day_of_week != day && has_course_on(t, day, week) {
        let i = choose|i: int|
            0 <= i < t.len() && (#[trigger] t[i]).day_of_week == day && t[i].weeks.contains(week)
                && keeps_week(t[i].week_type, week as int);
        assert(i < cs.len());
        assert(cs[i] == t[i]);
    }
}

} // verus!
