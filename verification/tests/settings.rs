use cufe_course::config::{
    apply_schedule_info, copy_max_periods, copy_schedule_settings, deselect_schedule, migrate_config,
    remove_time_table, schedule_to_load, set_background, switch_to_schedule,
    upsert_time_table,
};
use cufe_course::models::{AppConfig, CachedSchedule, EduSystem, PeriodTime, TimeTable};
use cufe_course::schedules::sanitize_ext;

fn base() -> AppConfig {
    AppConfig {
        first_day: None,
        end_week: None,
        max_periods: None,
        simplified_location: None,
        current_schedule_id: Some("s1".to_string()),
        period_times: None,
        time_tables: None,
        edu_systems: None,
        edu_system_url: None,
        last_edu_system_id: None,
        background_image: None,
        background_original: None,
    }
}

fn table(id: &str, name: &str) -> TimeTable {
    TimeTable { id: id.to_string(), name: name.to_string(), periods: vec![] }
}

#[test]
fn migration_adds_defaults() {
    let mut cfg = base();
    cfg.period_times = Some(vec![PeriodTime { start: "8:00".to_string(), end: "8:45".to_string() }]);
    cfg.edu_system_url = Some("https://xuanke.cufe.edu.cn/custom/".to_string());
    let m = migrate_config(cfg);
    assert!(m.time_table_added);
    assert!(m.needs_save);
    let tables = m.config.time_tables.as_ref().unwrap();
    assert_eq!(tables.len(), 1);
    assert_eq!(tables[0].id, "default");
    assert_eq!(tables[0].name, "默认时间表");
    assert_eq!(tables[0].periods[0].start, "8:00");
    let systems = m.config.edu_systems.as_ref().unwrap();
    assert_eq!(systems.len(), 2);
    assert_eq!(systems[0].id, "cufe");
    assert_eq!(systems[0].url, "https://xuanke.cufe.edu.cn/custom/");
    assert_eq!(systems[1].id, "zju");
    assert_eq!(m.config.last_edu_system_id.as_deref(), Some("cufe"));
}

#[test]
fn migration_twice_changes_nothing_more() {
    let first = migrate_config(base());
    assert!(first.needs_save);
    let second = migrate_config(first.config);
    assert!(!second.needs_save);
    assert!(!second.time_table_added);
    assert_eq!(second.config.edu_systems.as_ref().unwrap().len(), 2);
}

#[test]
fn migration_keeps_existing_systems() {
    let mut cfg = base();
    cfg.edu_systems = Some(vec![EduSystem {
        id: "zju".to_string(),
        name: "ZJU".to_string(),
        url: "u".to_string(),
        parser_type: "p".to_string(),
        enabled: false,
    }]);
    cfg.last_edu_system_id = Some("zju".to_string());
    let m = migrate_config(cfg);
    let systems = m.config.edu_systems.as_ref().unwrap();
    assert_eq!(systems.len(), 2);
    assert_eq!(systems[0].name, "ZJU");
    assert_eq!(systems[1].id, "cufe");
    assert_eq!(m.config.last_edu_system_id.as_deref(), Some("zju"));
}

#[test]
fn time_table_upsert_and_remove() {
    let tables = upsert_time_table(None, table("a", "A"));
    let tables = upsert_time_table(Some(tables), table("b", "B"));
    let tables = upsert_time_table(Some(tables), table("a", "A2"));
    assert_eq!(tables.len(), 2);
    assert_eq!(tables[0].name, "A2");
    let tables = remove_time_table(tables, "a");
    assert_eq!(tables.len(), 1);
    assert_eq!(tables[0].id, "b");
}

#[test]
fn selected_schedule_handling() {
    let mut cfg = base();
    assert!(!deselect_schedule(&mut cfg, "s2"));
    assert_eq!(cfg.current_schedule_id.as_deref(), Some("s1"));
    assert!(deselect_schedule(&mut cfg, "s1"));
    assert!(cfg.current_schedule_id.is_none());
    assert_eq!(schedule_to_load(Some("x".to_string()), &Some("y".to_string())).unwrap(), "x");
    assert_eq!(schedule_to_load(None, &Some("y".to_string())).unwrap(), "y");
    assert_eq!(schedule_to_load(None, &None).unwrap_err(), "没有选中的课表");
}

#[test]
fn settings_copy_keeps_first_day() {
    let mk = |fd: Option<i64>, mp: Option<i32>| CachedSchedule {
        id: "x".to_string(),
        name: "n".to_string(),
        courses: vec![],
        timestamp: 0,
        expire_time: 0,
        first_day: fd,
        max_periods: mp,
        weeks_count: mp,
        time_table_id: mp.map(|_| "t".to_string()),
        sort_index: None,
        school_year: None,
        school_term: None,
    };
    let source = mk(Some(1), Some(12));
    let mut target = mk(Some(2), None);
    copy_schedule_settings(&mut target, &source);
    assert_eq!(target.first_day, Some(2));
    assert_eq!(target.max_periods, Some(12));
    assert_eq!(target.weeks_count, Some(12));
    assert_eq!(target.time_table_id.as_deref(), Some("t"));
    let mut other = mk(Some(3), None);
    other.name = "其他".to_string();
    other.timestamp = 42;
    other.school_year = Some(2024);
    other.school_term = Some(2);
    copy_schedule_settings(&mut other, &source);
    assert_eq!((other.name.as_str(), other.timestamp, other.school_year, other.school_term), ("其他", 42, Some(2024), Some(2)));
}

#[test]
fn image_extensions() {
    assert_eq!(sanitize_ext(Some("PNG".to_string())), "png");
    assert_eq!(sanitize_ext(Some("webp".to_string())), "webp");
    assert_eq!(sanitize_ext(Some("j".to_string())), "jpg");
    assert_eq!(sanitize_ext(Some("jpeg12".to_string())), "jpg");
    assert_eq!(sanitize_ext(Some("p.g".to_string())), "jpg");
    assert_eq!(sanitize_ext(Some("图片".to_string())), "jpg");
    assert_eq!(sanitize_ext(None), "jpg");
}

#[test]
fn setters_keep_other_settings() {
    let mut cfg = base();
    cfg.end_week = Some(18);
    cfg.max_periods = Some(12);
    cfg.simplified_location = Some(true);
    cfg.edu_system_url = Some("u".to_string());
    set_background(&mut cfg, Some("a.jpg".to_string()), None);
    assert_eq!(cfg.background_image.as_deref(), Some("a.jpg"));
    set_background(&mut cfg, None, None);
    assert!(cfg.background_image.is_none() && cfg.background_original.is_none());
    assert_eq!((cfg.end_week, cfg.max_periods, cfg.simplified_location), (Some(18), Some(12), Some(true)));
    assert_eq!(cfg.edu_system_url.as_deref(), Some("u"));
    switch_to_schedule(&mut cfg, "s2".to_string(), Some(5));
    assert_eq!((cfg.current_schedule_id.as_deref(), cfg.first_day, cfg.end_week), (Some("s2"), Some(5), Some(18)));
    assert!(apply_schedule_info(&mut cfg, "s2", Some(9), None));
    assert_eq!((cfg.first_day, cfg.max_periods), (Some(9), Some(12)));
    assert!(!apply_schedule_info(&mut cfg, "s3", Some(1), Some(3)));
    assert_eq!((cfg.first_day, cfg.max_periods), (Some(9), Some(12)));
    let source = CachedSchedule {
        id: "x".to_string(),
        name: "n".to_string(),
        courses: vec![],
        timestamp: 0,
        expire_time: 0,
        first_day: None,
        max_periods: Some(10),
        weeks_count: None,
        time_table_id: None,
        sort_index: None,
        school_year: None,
        school_term: None,
    };
    copy_max_periods(&mut cfg, &source);
    assert_eq!((cfg.max_periods, cfg.end_week), (Some(10), Some(18)));
}
