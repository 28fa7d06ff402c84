//! The data the schedule logic works on: courses (regular classes and
//! exams), the period time table and the result of comparing two schedules.
use vstd::prelude::*;

verus! {

/// Whether an entry of a schedule is a class or an exam.
#[derive(Clone, Copy, Debug, PartialEq, Eq, Structural)]
pub enum CourseType {
    Regular,
    Exam,
}

/// When and what an exam is.
#[derive(Debug)]
pub struct ExamInfo {
    pub date: String,
    pub start_time: String,
    pub end_time: String,
    pub exam_name: String,
}

/// The mathematical value of an [`ExamInfo`].
pub struct ExamInfoView {
    pub date: Seq<char>,
    pub start_time: Seq<char>,
    pub end_time: Seq<char>,
    pub exam_name: Seq<char>,
}

impl View for ExamInfo {
    type V = ExamInfoView;

    open spec fn view(&self) -> ExamInfoView {
        ExamInfoView {
            date: self.date@,
            start_time: self.start_time@,
            end_time: self.end_time@,
            exam_name: self.exam_name@,
        }
    }
}

/// One entry of a schedule.
///
/// `weeks` lists the teaching weeks; `week_type` is 0 (every listed week),
/// 1 (odd weeks only) or 2 (even weeks only); `day_of_week` runs from 1
/// (Monday) to 7 (Sunday); `periods` are the class periods of the day.
#[derive(Debug)]
pub struct Course {
    pub name: String,
    pub teacher: String,
    pub weeks: Vec<i32>,
    pub week_type: i32,
    pub day_of_week: i32,
    pub periods: Vec<i32>,
    pub location: String,
    pub course_type: CourseType,
    pub exam_info: Option<ExamInfo>,
}

/// The mathematical value of a [`Course`].
pub struct CourseView {
    pub name: Seq<char>,
    pub teacher: Seq<char>,
    pub weeks: Seq<i32>,
    pub week_type: i32,
    pub day_of_week: i32,
    pub periods: Seq<i32>,
    pub location: Seq<char>,
    pub course_type: CourseType,
    pub exam_info: Option<ExamInfoView>,
}

pub open spec fn exam_info_view(e: Option<ExamInfo>) -> Option<ExamInfoView> {
    match e {
        Some(x) => Some(x@),
        None => None,
    }
}

impl View for Course {
    type V = CourseView;

    open spec fn view(&self) -> CourseView {
        CourseView {
            name: self.name@,
            teacher: self.teacher@,
            weeks: self.weeks@,
            week_type: self.week_type,
            day_of_week: self.day_of_week,
            periods: self.periods@,
            location: self.location@,
            course_type: self.course_type,
            exam_info: exam_info_view(self.exam_info),
        }
    }
}

/// The views of a list of courses.
pub open spec fn courses_view(s: Seq<Course>) -> Seq<CourseView> {
    s.map_values(|c: Course| c@)
}

/// A copy of a list of integers.
pub fn copy_ints(v: &[i32]) -> (r: Vec<i32>)
    ensures
        r@ == v@,
{
    let mut r: Vec<i32> = Vec::new();
    let mut i: usize = 0;
    while i < v.len()
        invariant
            i <= v.len(),
            r@ == v@.take(i as int),
        decreases v.len() - i,
    {
        r.push(v[i]);
        proof {
            assert(v@.take(i + 1) =~= v@.take(i as int).push(v@[i as int]));
        }
        i = i + 1;
    }
    proof {
        assert(v@.take(v.len() as int) =~= v@);
    }
    r
}

impl ExamInfo {
    /// A copy of this exam description.
    pub fn duplicate(&self) -> (r: ExamInfo)
        ensures
            r@ == self@,
    {
        ExamInfo {
            date: self.date.clone(),
            start_time: self.start_time.clone(),
            end_time: self.end_time.clone(),
            exam_name: self.exam_name.clone(),
        }
    }
}

impl Course {
    /// A copy of this course.
    pub fn duplicate(&self) -> (r: Course)
        ensures
            r@ == self@,
    {
        let exam_info = match &self.exam_info {
            Some(e) => Some(e.duplicate()),
            None => None,
        };
        Course {
            name: self.name.clone(),
            teacher: self.teacher.clone(),
            weeks: copy_ints(&self.weeks),
            week_type: self.week_type,
            day_of_week: self.day_of_week,
            periods: copy_ints(&self.periods),
            location: self.location.clone(),
            course_type: self.course_type,
            exam_info,
        }
    }
}

/// Start and end of one class period, as "H:MM" text.
#[derive(Debug)]
pub struct PeriodTime {
    pub start: String,
    pub end: String,
}

/// How a newly fetched schedule differs from the stored one.
#[derive(Debug, Clone, Copy, PartialEq, Eq, Structural)]
pub struct ScheduleDiff {
    pub added_count: usize,
    pub removed_count: usize,
    pub modified_count: usize,
    pub unchanged_count: usize,
}

/// A named period time table.
#[derive(Debug)]
pub struct TimeTable {
    pub id: String,
    pub name: String,
    pub periods: Vec<PeriodTime>,
}

/// A teaching system the app can log in to.
#[derive(Debug)]
pub struct EduSystem {
    pub id: String,
    pub name: String,
    pub url: String,
    pub parser_type: String,
    pub enabled: bool,
}

/// The application settings that the schedule logic reads and updates.
#[derive(Debug)]
pub struct AppConfig {
    /// Start of the first teaching day (UNIX timestamp).
    pub first_day: Option<i64>,
    /// Number of teaching weeks.
    pub end_week: Option<i32>,
    pub max_periods: Option<i32>,
    /// Whether locations are shown without their campus name.
    pub simplified_location: Option<bool>,
    pub current_schedule_id: Option<String>,
    pub period_times: Option<Vec<PeriodTime>>,
    pub time_tables: Option<Vec<TimeTable>>,
    pub edu_systems: Option<Vec<EduSystem>>,
    pub edu_system_url: Option<String>,
    pub last_edu_system_id: Option<String>,
    pub background_image: Option<String>,
    pub background_original: Option<String>,
}

/// A stored schedule.
#[derive(Debug)]
pub struct CachedSchedule {
    pub id: String,
    pub name: String,
    pub courses: Vec<Course>,
    pub timestamp: i64,
    pub expire_time: i64,
    pub first_day: Option<i64>,
    pub max_periods: Option<i32>,
    pub weeks_count: Option<i32>,
    pub time_table_id: Option<String>,
    pub sort_index: Option<i32>,
    pub school_year: Option<i32>,
    pub school_term: Option<i32>,
}

} // verus!
