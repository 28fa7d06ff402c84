//! Decisions around the teaching-system session: which errors mean the login
//! has expired, which semester to ask for, and the steps of checking a
//! session and logging in again with saved credentials.
use vstd::prelude::*;
use crate::text::{chars_of, contains, contains_exec, occurs_at};
use crate::crypto::decrypt_password_dpapi;
use crate::crypto::{base64_decoding, utf8_error_text};
use crate::exams::join;
use crate::courses::{owned, ScheduleTextError};
use crate::models::Course;
use crate::dates::{utc_year_month, year_month_of};
use vstd::utf8::{decode_utf8, valid_utf8};

verus! {

/// The error text says that the session is gone: the login has expired, a
/// new login is asked for, or the login data, student number or user
/// information is missing, or an HTML page came back.
pub open spec fn session_expired(error: Seq<char>) -> bool {
    ||| contains(error, "登录已失效"@)
    ||| contains(error, "请重新登录"@)
    ||| contains(error, "未找到登录信息"@)
    ||| contains(error, "需要学号信息"@)
    ||| contains(error, "无法获取用户信息"@)
    ||| contains(error, "HTML页面"@)
}

/// Whether an error from the teaching system means the session has expired.
pub fn is_session_expired_error(error: &str) -> (r: bool)
    ensures
        r == session_expired(error@),
{
    let e = chars_of(error);
    contains_exec(&e, &chars_of("登录已失效")) || contains_exec(&e, &chars_of("请重新登录"))
        || contains_exec(&e, &chars_of("未找到登录信息")) || contains_exec(&e, &chars_of("需要学号信息"))
        || contains_exec(&e, &chars_of("无法获取用户信息")) || contains_exec(&e, &chars_of("HTML页面"))
}

/// The semester in progress in a month: September to December is the first
/// term of that year's academic year, January still belongs to the first
/// term of the previous year's, February to August is its second term.
pub open spec fn semester_of(month: u32, year: i32) -> (i32, i32) {
    if month >= 9 {
        (year, 1)
    } else if month == 1 {
        ((year - 1) as i32, 1)
    } else {
        ((year - 1) as i32, 2)
    }
}

/// The academic year and term in progress in `month` of `year`.
pub fn current_semester(month: u32, year: i32) -> (r: (i32, i32))
    requires
        year > i32::MIN,
    ensures
        r == semester_of(month, year),
{
    if month >= 9 {
        (year, 1)
    } else if month == 1 {
        (year - 1, 1)
    } else {
        (year - 1, 2)
    }
}

/// The semesters to try, in order: the current one, then the one before it,
/// then the one after it.
pub open spec fn semester_candidates_spec(month: u32, year: i32) -> Seq<(i32, i32)> {
    let (y, t) = semester_of(month, year);
    let earlier = if t == 2 {
        (y, 1i32)
    } else {
        ((y - 1) as i32, 2i32)
    };
    let later = if t == 1 {
        (y, 2i32)
    } else {
        ((y + 1) as i32, 1i32)
    };
    seq![(y, t), earlier, later]
}

/// The semesters to try when fetching a schedule at `month` of `year`.
pub fn semester_candidates(month: u32, year: i32) -> (r: Vec<(i32, i32)>)
    requires
        i32::MIN + 2 <= year,
    ensures
        r@ == semester_candidates_spec(month, year),
{
    let (y, t) = current_semester(month, year);
    let mut tasks = vec![(y, t)];
    if t == 2 {
        tasks.push((y, 1));
    } else {
        tasks.push((y - 1, 2));
    }
    if t == 1 {
        tasks.push((y, 2));
    } else {
        tasks.push((y + 1, 1));
    }
    assert(tasks@ =~= semester_candidates_spec(month, year));
    tasks
}

/// What fetching the schedule of one semester gave.
pub enum ScheduleAttempt {
    Found(Vec<Course>),
    Empty,
    Failed(String),
}

/// The error reported when no semester had courses, before any attempt.
pub fn no_schedule_error() -> (r: String)
    ensures
        r@ == "未找到有效的课表数据"@,
{
    owned("未找到有效的课表数据")
}

/// One step of trying semesters in turn: courses found end the search
/// (`Ok`); otherwise the search goes on with the error to report if nothing
/// is found (`Err`): "当前学期暂无课程" for an empty semester, else the
/// failure's message.
pub fn schedule_search_step(attempt: ScheduleAttempt) -> (r: Result<Vec<Course>, String>)
    ensures
        match attempt {
            ScheduleAttempt::Found(c) => if c.len() > 0 {
                r matches Ok(v) && v@ == c@
            } else {
                r matches Err(m) && m@ == "当前学期暂无课程"@
            },
            ScheduleAttempt::Empty => r matches Err(m) && m@ == "当前学期暂无课程"@,
            ScheduleAttempt::Failed(e) => r matches Err(m) && m@ == e@,
        },
{
    match attempt {
        ScheduleAttempt::Found(c) => {
            if c.len() > 0 {
                Ok(c)
            } else {
                Err(owned("当前学期暂无课程"))
            }
        },
        ScheduleAttempt::Empty => Err(owned("当前学期暂无课程")),
        ScheduleAttempt::Failed(e) => Err(e),
    }
}

/// The error reported when every semester was tried without courses.
pub fn schedule_search_failure(last_error: &str) -> (r: String)
    ensures
        r@ == "无法获取课表: "@ + last_error@,
{
    join("无法获取课表: ", &chars_of(last_error))
}

/// Where checking the session stands.
#[derive(Clone, Copy, Debug, PartialEq, Eq, Structural)]
pub enum SessionPhase {
    /// Nothing done yet.
    Start,
    /// The current session's user information is being fetched.
    CheckingCurrent,
    /// Saved credentials are being loaded.
    LoadingCredentials,
    /// A login with the saved credentials is under way.
    LoggingIn,
    /// The saved credentials are being cleared after a refused login.
    Clearing,
    /// User information is being fetched after a fresh login.
    FetchingAfterLogin,
    /// The check is over.
    Done,
}

/// What the outside world reported.
pub enum SessionEvent {
    /// The check starts; whether a session is held.
    Started { logged_in: bool },
    /// Fetching user information succeeded (`None`) or failed.
    UserInfo { error: Option<String> },
    /// Loading saved credentials: the stored password, or nothing saved.
    Credentials { stored_password: Option<String> },
    /// The login failed with an error, or answered whether it succeeded.
    Login { error: Option<String>, success: bool },
    /// Clearing the credentials succeeded (`None`) or failed.
    Cleared { error: Option<String> },
}

/// How the check ends.
pub enum SessionOutcome {
    /// The session status; `with_user_info` when the user information just
    /// fetched is part of it.
    Status { logged_in: bool, relogin_performed: bool, with_user_info: bool },
    /// The check failed with this message.
    Failed(String),
}

/// What to do next.
pub enum SessionAction {
    FetchUserInfo,
    /// Drop the session, then load saved credentials.
    LogoutThenLoadCredentials,
    LoadCredentials,
    /// Log in again (as the saved user) with this password.
    Login { password: String },
    /// Drop the session and clear the saved credentials.
    LogoutAndClearCredentials,
    Finish(SessionOutcome),
}

/// The event is one the phase waits for.
pub open spec fn event_expected(phase: SessionPhase, event: SessionEvent) -> bool {
    match phase {
        SessionPhase::Start => event is Started,
        SessionPhase::CheckingCurrent => event is UserInfo,
        SessionPhase::LoadingCredentials => event is Credentials,
        SessionPhase::LoggingIn => event is Login,
        SessionPhase::Clearing => event is Cleared,
        SessionPhase::FetchingAfterLogin => event is UserInfo,
        SessionPhase::Done => false,
    }
}

/// The action finishes with the given status.
pub open spec fn finishes_with(a: SessionAction, logged_in: bool, relogin: bool, info: bool) -> bool {
    a matches SessionAction::Finish(SessionOutcome::Status { logged_in: l, relogin_performed: p, with_user_info: u })
        && l == logged_in && p == relogin && u == info
}

/// The action finishes with a failure whose message is `m`.
pub open spec fn fails_with(a: SessionAction, m: Seq<char>) -> bool {
    a matches SessionAction::Finish(SessionOutcome::Failed(e)) && e@ == m
}

/// One step of checking the session and, when it has expired, logging in
/// again with the saved credentials.
///
/// A held session is checked by fetching the user information: success
/// ends the check logged in; an error that does not mean expiry is reported;
/// expiry drops the session and goes on as without one. Without a session,
/// saved credentials are loaded: none ends the check logged out; the stored
/// password is decoded (a failure is reported) and used to log in. A login
/// that is refused, or fails with an expiry error, drops the session and the
/// credentials and ends logged out after a login attempt; other login errors
/// are reported. After a successful login the user information is fetched.
pub fn ensure_session_step(phase: SessionPhase, event: SessionEvent) -> (r: (SessionPhase, SessionAction))
    requires
        event_expected(phase, event),
    ensures
        match (phase, event) {
            (SessionPhase::Start, SessionEvent::Started { logged_in }) => if logged_in {
                r.0 == SessionPhase::CheckingCurrent && r.1 is FetchUserInfo
            } else {
                r.0 == SessionPhase::LoadingCredentials && r.1 is LoadCredentials
            },
            (SessionPhase::CheckingCurrent, SessionEvent::UserInfo { error }) => match error {
                None => r.0 == SessionPhase::Done && finishes_with(r.1, true, false, true),
                Some(e) => if session_expired(e@) {
                    r.0 == SessionPhase::LoadingCredentials && r.1 is LogoutThenLoadCredentials
                } else {
                    r.0 == SessionPhase::Done && fails_with(r.1, e@)
                },
            },
            (SessionPhase::LoadingCredentials, SessionEvent::Credentials { stored_password }) => match stored_password {
                None => r.0 == SessionPhase::Done && finishes_with(r.1, false, false, false),
                Some(s) => match base64_decoding(s@) {
                    Err(e) => r.0 == SessionPhase::Done && fails_with(
                        r.1,
                        "密码解密失败: "@ + ("Base64 解码失败: "@ + e),
                    ),
                    Ok(b) => if valid_utf8(b) {
                        r.0 == SessionPhase::LoggingIn && (r.1 matches SessionAction::Login {
                            password,
                        } && password@ == decode_utf8(b))
                    } else {
                        r.0 == SessionPhase::Done && fails_with(
                            r.1,
                            "密码解密失败: "@ + ("UTF-8 解码失败: "@ + utf8_error_text(b)),
                        )
                    },
                },
            },
            (SessionPhase::LoggingIn, SessionEvent::Login { error, success }) => match error {
                Some(e) => if session_expired(e@) {
                    r.0 == SessionPhase::Clearing && r.1 is LogoutAndClearCredentials
                } else {
                    r.0 == SessionPhase::Done && fails_with(r.1, e@)
                },
                None => if success {
                    r.0 == SessionPhase::FetchingAfterLogin && r.1 is FetchUserInfo
                } else {
                    r.0 == SessionPhase::Clearing && r.1 is LogoutAndClearCredentials
                },
            },
            (SessionPhase::Clearing, SessionEvent::Cleared { error }) => match error {
                None => r.0 == SessionPhase::Done && finishes_with(r.1, false, true, false),
                Some(e) => r.0 == SessionPhase::Done && fails_with(r.1, e@),
            },
            (SessionPhase::FetchingAfterLogin, SessionEvent::UserInfo { error }) => match error {
                None => r.0 == SessionPhase::Done && finishes_with(r.1, true, true, true),
                Some(e) => r.0 == SessionPhase::Done && fails_with(r.1, e@),
            },
            _ => false,
        },
{
    match (phase, event) {
        (SessionPhase::Start, SessionEvent::Started { logged_in }) => {
            if logged_in {
                (SessionPhase::CheckingCurrent, SessionAction::FetchUserInfo)
            } else {
                (SessionPhase::LoadingCredentials, SessionAction::LoadCredentials)
            }
        },
        (SessionPhase::CheckingCurrent, SessionEvent::UserInfo { error }) => match error {
            None => (
                SessionPhase::Done,
                SessionAction::Finish(
                    SessionOutcome::Status {
                        logged_in: true,
                        relogin_performed: false,
                        with_user_info: true,
                    },
                ),
            ),
            Some(e) => {
                if is_session_expired_error(e.as_str()) {
                    (SessionPhase::LoadingCredentials, SessionAction::LogoutThenLoadCredentials)
                } else {
                    (SessionPhase::Done, SessionAction::Finish(SessionOutcome::Failed(e)))
                }
            },
        },
        (SessionPhase::LoadingCredentials, SessionEvent::Credentials { stored_password }) => {
            match stored_password {
                None => (
                    SessionPhase::Done,
                    SessionAction::Finish(
                        SessionOutcome::Status {
                            logged_in: false,
                            relogin_performed: false,
                            with_user_info: false,
                        },
                    ),
                ),
                Some(s) => match decrypt_password_dpapi(s.as_str()) {
                    Ok(password) => (SessionPhase::LoggingIn, SessionAction::Login { password }),
                    Err(m) => {
                        let msg = join("密码解密失败: ", &chars_of(m.as_str()));
                        (SessionPhase::Done, SessionAction::Finish(SessionOutcome::Failed(msg)))
                    },
                },
            }
        },
        (SessionPhase::LoggingIn, SessionEvent::Login { error, success }) => match error {
            Some(e) => {
                if is_session_expired_error(e.as_str()) {
                    (SessionPhase::Clearing, SessionAction::LogoutAndClearCredentials)
                } else {
                    (SessionPhase::Done, SessionAction::Finish(SessionOutcome::Failed(e)))
                }
            },
            None => {
                if success {
                    (SessionPhase::FetchingAfterLogin, SessionAction::FetchUserInfo)
                } else {
                    (SessionPhase::Clearing, SessionAction::LogoutAndClearCredentials)
                }
            },
        },
        (SessionPhase::Clearing, SessionEvent::Cleared { error }) => match error {
            None => (
                SessionPhase::Done,
                SessionAction::Finish(
                    SessionOutcome::Status {
                        logged_in: false,
                        relogin_performed: true,
                        with_user_info: false,
                    },
                ),
            ),
            Some(e) => (SessionPhase::Done, SessionAction::Finish(SessionOutcome::Failed(e))),
        },
        (SessionPhase::FetchingAfterLogin, SessionEvent::UserInfo { error }) => match error {
            None => (
                SessionPhase::Done,
                SessionAction::Finish(
                    SessionOutcome::Status {
                        logged_in: true,
                        relogin_performed: true,
                        with_user_info: true,
                    },
                ),
            ),
            Some(e) => (SessionPhase::Done, SessionAction::Finish(SessionOutcome::Failed(e))),
        },
        (_, ev) => (SessionPhase::Done, SessionAction::Finish(SessionOutcome::Failed(String::new()))),
    }
}

/// The semesters to try when fetching a schedule at time `now_ts` (UTC):
/// `None` when the timestamp is not a representable time or its year is at
/// the very bottom of the `i32` range.
pub fn semester_candidates_at(now_ts: i64) -> (r: Option<Vec<(i32, i32)>>)
    ensures
        match utc_year_month(now_ts) {
            Some((y, m)) => if y >= i32::MIN + 2 {
                r matches Some(v) && v@ == semester_candidates_spec(m, y)
            } else {
                r is None
            },
            None => r is None,
        },
{
    match year_month_of(now_ts) {
        Some((y, m)) => {
            if y >= i32::MIN + 2 {
                Some(semester_candidates(m, y))
            } else {
                None
            }
        },
        None => None,
    }
}

/// The semester in progress at time `now_ts` (UTC), when representable.
pub fn semester_at(now_ts: i64) -> (r: Option<(i32, i32)>)
    ensures
        match utc_year_month(now_ts) {
            Some((y, m)) => if y > i32::MIN {
                r == Some(semester_of(m, y))
            } else {
                r is None
            },
            None => r is None,
        },
{
    match year_month_of(now_ts) {
        Some((y, m)) => {
            if y > i32::MIN {
                Some(current_semester(m, y))
            } else {
                None
            }
        },
        None => None,
    }
}

/// A course list that came back as an HTML page reads as an expired
/// session: its message is one the session check treats as expiry.
pub proof fn law_html_page_means_expired()
    ensures
        session_expired(ScheduleTextError::HtmlPage.message_text()),
{
    let m = ScheduleTextError::HtmlPage.message_text();
    reveal_strlit("服务器返回了HTML页面而不是JSON，可能是登录已失效");
    reveal_strlit("HTML页面");
    assert(m.subrange(6, 12) =~= "HTML页面"@);
    assert(occurs_at(m, "HTML页面"@, 6));
}

/// Which semester is in progress: September to December belong to the
/// first term of the academic year named by that calendar year, January
/// still to the same term as the December before it, and February to August
/// to the second term of the academic year that began the year before. The
/// term in progress is tried first, then the one before it, then the one
/// after it.
pub proof fn law_semester_by_month(month: u32, year: i32)
    requires
        1 <= month <= 12,
        i32::MIN + 2 <= year <= i32::MAX - 1,
    ensures
        9 <= month ==> semester_of(month, year) == (year, 1i32),
        9 <= month ==> semester_candidates_spec(month, year) == seq![
            (year, 1i32),
            ((year - 1) as i32, 2i32),
            (year, 2i32),
        ],
        month == 1 ==> semester_of(month, (year + 1) as i32) == semester_of(12, year),
        2 <= month <= 8 ==> semester_of(month, year) == ((year - 1) as i32, 2i32),
        2 <= month <= 8 ==> semester_candidates_spec(month, year) == seq![
            ((year - 1) as i32, 2i32),
            ((year - 1) as i32, 1i32),
            (year, 1i32),
        ],
{
}

} // verus!
