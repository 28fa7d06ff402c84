use cufe_course::versions::{compare_versions, update_check_failure, update_from_release, ReleaseInfo};

fn release(tag: &str, name: Option<&str>, body: Option<&str>) -> ReleaseInfo {
    ReleaseInfo {
        tag_name: tag.to_string(),
        name: name.map(|s| s.to_string()),
        body: body.map(|s| s.to_string()),
        html_url: "https://example.org/r".to_string(),
    }
}

#[test]
fn compare_versions_cases() {
    assert_eq!(compare_versions("2.4.0", "2.4.0.1"), 1);
    assert_eq!(compare_versions("2.4.0.1", "2.4.0"), -1);
    assert_eq!(compare_versions("v2.7.1", "2.7.1"), 0);
    assert_eq!(compare_versions("2.10.0", "2.9.9"), -1);
    assert_eq!(compare_versions("2.7.2", "v2.8"), 1);
    assert_eq!(compare_versions("1.x.3", "1.3"), 0);
}

#[test]
fn compare_versions_is_antisymmetric_and_reflexive() {
    for (a, b) in [("1.2", "1.10"), ("3", "3.0"), ("v1", "vv2"), ("", "0")] {
        assert_eq!(compare_versions(a, b), -compare_versions(b, a));
        assert_eq!(compare_versions(a, a), 0);
    }
}

#[test]
fn update_announced_when_newer() {
    let info = update_from_release("2.7.1", true, &None, release("v2.7.2", None, None)).unwrap();
    assert_eq!(info.version, "2.7.2");
    assert_eq!(info.title, "v2.7.2");
    assert_eq!(info.release_notes, "");
    assert_eq!(info.release_url, "https://example.org/r");
    let info = update_from_release("2.7.1", false, &None, release("v2.8.0", Some("新版"), Some("说明"))).unwrap();
    assert_eq!(info.title, "新版");
    assert_eq!(info.release_notes, "说明");
}

#[test]
fn update_not_announced_when_current_or_skipped() {
    assert!(update_from_release("2.7.2", true, &None, release("v2.7.2", None, None)).is_none());
    assert!(update_from_release("2.8.0", true, &None, release("v2.7.2", None, None)).is_none());
    let skipped = Some("2.7.2".to_string());
    assert!(update_from_release("2.7.1", true, &skipped, release("v2.7.2", None, None)).is_none());
    assert!(update_from_release("2.7.1", false, &skipped, release("v2.7.2", None, None)).is_some());
}

#[test]
fn failed_check_silent_only_when_automatic() {
    assert!(matches!(update_check_failure(true, "x".to_string()), Ok(None)));
    match update_check_failure(false, "网络连接失败".to_string()) {
        Err(m) => assert_eq!(m, "网络连接失败"),
        Ok(_) => panic!("manual check must report"),
    }
}
