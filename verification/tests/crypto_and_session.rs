use cufe_course::crypto::{decrypt_password_dpapi, encrypt_password_dpapi};
use cufe_course::session::{
    current_semester, ensure_session_step, is_session_expired_error, schedule_search_failure,
    schedule_search_step, semester_at, semester_candidates, semester_candidates_at, ScheduleAttempt, SessionAction, SessionEvent,
    SessionOutcome, SessionPhase,
};

#[test]
fn password_encoding() {
    assert_eq!(encrypt_password_dpapi("abc").unwrap(), "YWJj");
    let stored = encrypt_password_dpapi("密码Pa55!").unwrap();
    assert_eq!(decrypt_password_dpapi(&stored).unwrap(), "密码Pa55!");
    assert!(decrypt_password_dpapi("!!!").unwrap_err().starts_with("Base64 解码失败: "));
    assert!(decrypt_password_dpapi("/w==").unwrap_err().starts_with("UTF-8 解码失败: "));
}

#[test]
fn expired_session_errors() {
    assert!(is_session_expired_error("登录已失效，请重新登录"));
    assert!(is_session_expired_error("服务器返回了HTML页面而不是JSON"));
    assert!(is_session_expired_error("无法获取用户信息"));
    assert!(!is_session_expired_error("网络连接失败"));
}

#[test]
fn semesters_to_try() {
    assert_eq!(current_semester(10, 2025), (2025, 1));
    assert_eq!(current_semester(1, 2026), (2025, 1));
    assert_eq!(current_semester(3, 2026), (2025, 2));
    assert_eq!(semester_candidates(10, 2025), vec![(2025, 1), (2024, 2), (2025, 2)]);
    assert_eq!(semester_candidates(5, 2026), vec![(2025, 2), (2025, 1), (2026, 1)]);
}

#[test]
fn schedule_search_steps() {
    assert_eq!(schedule_search_step(ScheduleAttempt::Empty).unwrap_err(), "当前学期暂无课程");
    assert_eq!(schedule_search_step(ScheduleAttempt::Failed("x".to_string())).unwrap_err(), "x");
    assert_eq!(schedule_search_step(ScheduleAttempt::Found(vec![])).unwrap_err(), "当前学期暂无课程");
    assert_eq!(schedule_search_failure("当前学期暂无课程"), "无法获取课表: 当前学期暂无课程");
}

fn finish(a: SessionAction) -> (bool, bool, bool) {
    match a {
        SessionAction::Finish(SessionOutcome::Status { logged_in, relogin_performed, with_user_info }) => {
            (logged_in, relogin_performed, with_user_info)
        }
        _ => panic!("expected a status"),
    }
}

#[test]
fn session_check_paths() {
    let (p, a) = ensure_session_step(SessionPhase::Start, SessionEvent::Started { logged_in: true });
    assert_eq!(p, SessionPhase::CheckingCurrent);
    assert!(matches!(a, SessionAction::FetchUserInfo));
    let (p, a) = ensure_session_step(p, SessionEvent::UserInfo { error: None });
    assert_eq!(p, SessionPhase::Done);
    assert_eq!(finish(a), (true, false, true));

    let (p, a) = ensure_session_step(SessionPhase::CheckingCurrent, SessionEvent::UserInfo { error: Some("登录已失效".to_string()) });
    assert_eq!(p, SessionPhase::LoadingCredentials);
    assert!(matches!(a, SessionAction::LogoutThenLoadCredentials));
    let (p, a) = ensure_session_step(p, SessionEvent::Credentials { stored_password: None });
    assert_eq!(p, SessionPhase::Done);
    assert_eq!(finish(a), (false, false, false));

    let (p, a) = ensure_session_step(SessionPhase::LoadingCredentials, SessionEvent::Credentials { stored_password: Some("cHc=".to_string()) });
    assert_eq!(p, SessionPhase::LoggingIn);
    match a {
        SessionAction::Login { password } => assert_eq!(password, "pw"),
        _ => panic!("expected a login"),
    }
    let (p, a) = ensure_session_step(p, SessionEvent::Login { error: None, success: false });
    assert_eq!(p, SessionPhase::Clearing);
    assert!(matches!(a, SessionAction::LogoutAndClearCredentials));
    let (p, a) = ensure_session_step(p, SessionEvent::Cleared { error: None });
    assert_eq!(p, SessionPhase::Done);
    assert_eq!(finish(a), (false, true, false));

    let (p, _) = ensure_session_step(SessionPhase::LoggingIn, SessionEvent::Login { error: None, success: true });
    assert_eq!(p, SessionPhase::FetchingAfterLogin);
    let (_, a) = ensure_session_step(p, SessionEvent::UserInfo { error: None });
    assert_eq!(finish(a), (true, true, true));

    let (p, a) = ensure_session_step(SessionPhase::LoggingIn, SessionEvent::Login { error: Some("网络错误".to_string()), success: false });
    assert_eq!(p, SessionPhase::Done);
    assert!(matches!(a, SessionAction::Finish(SessionOutcome::Failed(ref m)) if m == "网络错误"));

    let (_, a) = ensure_session_step(SessionPhase::LoadingCredentials, SessionEvent::Credentials { stored_password: Some("!!".to_string()) });
    match a {
        SessionAction::Finish(SessionOutcome::Failed(m)) => assert!(m.starts_with("密码解密失败: Base64 解码失败: ")),
        _ => panic!("expected a failure"),
    }
}

#[test]
fn semesters_at_timestamps() {
    // 2025-10-15 00:00 UTC
    assert_eq!(semester_at(1_760_486_400), Some((2025, 1)));
    assert_eq!(semester_candidates_at(1_760_486_400), Some(vec![(2025, 1), (2024, 2), (2025, 2)]));
    // 2026-05-01 00:00 UTC
    assert_eq!(semester_at(1_777_593_600), Some((2025, 2)));
    // 2026-01-10 00:00 UTC
    assert_eq!(semester_at(1_768_003_200), Some((2025, 1)));
    assert_eq!(semester_at(i64::MAX), None);
}
