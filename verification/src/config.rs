//! Updates of the application settings: migration of older settings, the
//! list of time tables, the selected schedule and the background image.
use vstd::prelude::*;
use crate::text::{chars_of, contains, contains_exec};
use crate::models::{AppConfig, CachedSchedule, EduSystem, PeriodTime, TimeTable};
use crate::courses::owned;
use crate::widget::table_view;

verus! {

/// The mathematical value of an [`EduSystem`].
pub struct EduSystemView {
    pub id: Seq<char>,
    pub name: Seq<char>,
    pub url: Seq<char>,
    pub parser_type: Seq<char>,
    pub enabled: bool,
}

impl View for EduSystem {
    type V = EduSystemView;

    open spec fn view(&self) -> EduSystemView {
        EduSystemView {
            id: self.id@,
            name: self.name@,
            url: self.url@,
            parser_type: self.parser_type@,
            enabled: self.enabled,
        }
    }
}

pub open spec fn systems_view(s: Seq<EduSystem>) -> Seq<EduSystemView> {
    s.map_values(|e: EduSystem| e@)
}

/// The teaching systems every installation offers.
pub open spec fn default_systems() -> Seq<EduSystemView> {
    seq![
        EduSystemView {
            id: "cufe"@,
            name: "中央财经大学"@,
            url: "https://xuanke.cufe.edu.cn/jwglxt/"@,
            parser_type: "cufe_default"@,
            enabled: true,
        },
        EduSystemView {
            id: "zju"@,
            name: "浙江大学"@,
            url: "https://zdbk.zju.edu.cn/jwglxt/"@,
            parser_type: "zju_default"@,
            enabled: true,
        },
    ]
}

/// Some system of `s` has the id `id`.
pub open spec fn has_system(s: Seq<EduSystemView>, id: Seq<char>) -> bool {
    exists|i: int| 0 <= i < s.len() && (#[trigger] s[i]).id == id
}

/// `s` followed by the default systems whose id `s` lacks, in order.
pub open spec fn with_default_systems(s: Seq<EduSystemView>) -> Seq<EduSystemView> {
    let d = default_systems();
    let s1 = if has_system(s, d[0].id) {
        s
    } else {
        s.push(d[0])
    };
    if has_system(s, d[1].id) {
        s1
    } else {
        s1.push(d[1])
    }
}

/// The position of the first system with the id `id`.
pub open spec fn first_system(s: Seq<EduSystemView>, id: Seq<char>) -> Option<int>
    decreases s.len(),
{
    if s.len() == 0 {
        None
    } else if s[0].id == id {
        Some(0)
    } else {
        match first_system(s.drop_first(), id) {
            Some(i) => Some(i + 1),
            None => None,
        }
    }
}

/// The earlier single address of the teaching system applies to the "cufe"
/// entry when it is a cufe.edu.cn address: the position and the address.
pub open spec fn cufe_url_override(s: Seq<EduSystemView>, old_url: Option<Seq<char>>) -> Option<
    (int, Seq<char>),
> {
    match old_url {
        Some(u) => if contains(u, "cufe.edu.cn"@) {
            match first_system(s, "cufe"@) {
                Some(i) => Some((i, u)),
                None => None,
            }
        } else {
            None
        },
        None => None,
    }
}

pub open spec fn opt_view(o: Option<String>) -> Option<Seq<char>> {
    match o {
        Some(s) => Some(s@),
        None => None,
    }
}

/// The teaching systems after migration: the missing defaults added, then
/// the earlier single address applied to the "cufe" entry.
pub open spec fn migrated_systems(before: Seq<EduSystemView>, old_url: Option<Seq<char>>) -> Seq<
    EduSystemView,
> {
    let added = with_default_systems(before);
    match cufe_url_override(added, old_url) {
        Some((i, u)) => added.update(i, EduSystemView { url: u, ..added[i] }),
        None => added,
    }
}

/// Migration changes the recorded systems or the last used one: a default
/// system is missing, the "cufe" address differs from the earlier address,
/// or no system is recorded as last used.
pub open spec fn migration_changes(
    before: Seq<EduSystemView>,
    old_url: Option<Seq<char>>,
    last: Option<Seq<char>>,
) -> bool {
    let added = with_default_systems(before);
    ||| added.len() > before.len()
    ||| (cufe_url_override(added, old_url) matches Some((i, u)) && added[i].url != u)
    ||| (last is None && migrated_systems(before, old_url).len() > 0)
}

/// The result of migrating older settings: the settings, whether they had
/// to be saved after adding the default time table, and whether they have
/// to be saved at the end.
pub struct Migration {
    pub config: AppConfig,
    pub time_table_added: bool,
    pub needs_save: bool,
}

/// Migrates older settings.
///
/// Without time tables but with period times, the period times become the
/// time table "default" ("默认时间表"). The default teaching systems that are
/// missing are added; the earlier single cufe.edu.cn address replaces the
/// address of the "cufe" system; the first system becomes the last used one
/// when none is recorded. Other settings are left as they are.
pub fn migrate_config(config: AppConfig) -> (r: Migration)
    ensures
        ({
            let has_tables = match config.time_tables {
                Some(t) => t@.len() > 0,
                None => false,
            };
            &&& r.time_table_added == (!has_tables && config.period_times is Some)
            &&& if r.time_table_added {
                r.config.time_tables matches Some(t) && t@.len() == 1 && t@[0].id@ == "default"@
                    && t@[0].name@ == "默认时间表"@ && table_view(t@[0].periods@) == table_view(
                    config.period_times->0@,
                )
            } else {
                r.config.time_tables == config.time_tables
            }
        }),
        ({
            let before = match config.edu_systems {
                Some(s) => systems_view(s@),
                None => Seq::empty(),
            };
            let systems = migrated_systems(before, opt_view(config.edu_system_url));
            &&& r.config.edu_systems matches Some(s) && systems_view(s@) == systems
            &&& if config.last_edu_system_id is None && systems.len() > 0 {
                r.config.last_edu_system_id matches Some(l) && l@ == systems[0].id
            } else {
                r.config.last_edu_system_id == config.last_edu_system_id
            }
            &&& r.needs_save == migration_changes(
                before,
                opt_view(config.edu_system_url),
                opt_view(config.last_edu_system_id),
            )
        }),
        r.config.first_day == config.first_day,
        r.config.end_week == config.end_week,
        r.config.max_periods == config.max_periods,
        r.config.simplified_location == config.simplified_location,
        r.config.current_schedule_id == config.current_schedule_id,
        r.config.period_times == config.period_times,
        r.config.edu_system_url == config.edu_system_url,
        r.config.background_image == config.background_image,
        r.config.background_original == config.background_original,
{
    let mut config = config;
    let has_tables = match &config.time_tables {
        Some(t) => t.len() > 0,
        None => false,
    };
    let mut time_table_added = false;
    if !has_tables {
        match &config.period_times {
            Some(periods) => {
                let table = TimeTable {
                    id: owned("default"),
                    name: owned("默认时间表"),
                    periods: copy_period_list(periods),
                };
                config.time_tables = Some(vec![table]);
                time_table_added = true;
            },
            None => {},
        }
    }
    let mut systems: Vec<EduSystem> = match config.edu_systems {
        Some(s) => s,
        None => Vec::new(),
    };
    config.edu_systems = None;
    let ghost before = systems_view(systems@);
    let has_cufe = has_system_exec(&systems, "cufe");
    let has_zju = has_system_exec(&systems, "zju");
    let mut needs_save = false;
    if !has_cufe {
        systems.push(
            EduSystem {
                id: owned("cufe"),
                name: owned("中央财经大学"),
                url: owned("https://xuanke.cufe.edu.cn/jwglxt/"),
                parser_type: owned("cufe_default"),
                enabled: true,
            },
        );
        needs_save = true;
    }
    if !has_zju {
        systems.push(
            EduSystem {
                id: owned("zju"),
                name: owned("浙江大学"),
                url: owned("https://zdbk.zju.edu.cn/jwglxt/"),
                parser_type: owned("zju_default"),
                enabled: true,
            },
        );
        needs_save = true;
    }
    let ghost added = systems_view(systems@);
    proof {
        assert(added =~= with_default_systems(before));
    }
    match &config.edu_system_url {
        Some(old_url) => {
            if contains_exec(&chars_of(old_url.as_str()), &chars_of("cufe.edu.cn")) {
                match first_system_exec(&systems, "cufe") {
                    Some(i) => {
                        if systems[i].url != *old_url {
                            let entry = EduSystem {
                                id: systems[i].id.clone(),
                                name: systems[i].name.clone(),
                                url: old_url.clone(),
                                parser_type: systems[i].parser_type.clone(),
                                enabled: systems[i].enabled,
                            };
                            systems.set(i, entry);
                            needs_save = true;
                            proof {
                                assert(systems_view(systems@) =~= added.update(
                                    i as int,
                                    EduSystemView { url: old_url@, ..added[i as int] },
                                ));
                            }
                        } else {
                            proof {
                                assert(added =~= added.update(
                                    i as int,
                                    EduSystemView { url: old_url@, ..added[i as int] },
                                ));
                            }
                        }
                    },
                    None => {},
                }
            }
        },
        None => {},
    }
    let mut last = config.last_edu_system_id;
    if last.is_none() && systems.len() > 0 {
        last = Some(systems[0].id.clone());
        needs_save = true;
    }
    config.last_edu_system_id = last;
    config.edu_systems = Some(systems);
    Migration { config, time_table_added, needs_save }
}

/// A copy of a period list.
fn copy_period_list(t: &Vec<PeriodTime>) -> (r: Vec<PeriodTime>)
    ensures
        table_view(r@) == table_view(t@),
{
    let mut r: Vec<PeriodTime> = Vec::new();
    let mut i: usize = 0;
    while i < t.len()
        invariant
            i <= t.len(),
            r@.len() == i,
            forall|k: int| 0 <= k < i ==> #[trigger] table_view(r@)[k] == table_view(t@)[k],
        decreases t.len() - i,
    {
        let ghost before = r@;
        r.push(PeriodTime { start: t[i].start.clone(), end: t[i].end.clone() });
        proof {
            assert forall|k: int| 0 <= k < i + 1 implies #[trigger] table_view(r@)[k] == table_view(
                t@,
            )[k] by {
                if k < i {
                    assert(r@[k] == before[k]);
                    assert(table_view(before)[k] == table_view(t@)[k]);
                }
            }
        }
        i = i + 1;
    }
    proof {
        assert(table_view(r@) =~= table_view(t@));
    }
    r
}

/// Whether some system has the id `id`.
fn has_system_exec(s: &Vec<EduSystem>, id: &str) -> (r: bool)
    ensures
        r == has_system(systems_view(s@), id@),
{
    let key = owned(id);
    let ghost v = systems_view(s@);
    let mut i: usize = 0;
    while i < s.len()
        invariant
            i <= s.len(),
            v == systems_view(s@),
            key@ == id@,
            forall|j: int| 0 <= j < i ==> (#[trigger] v[j]).id != id@,
        decreases s.len() - i,
    {
        proof {
            assert(v[i as int] == s@[i as int]@);
        }
        if s[i].id == key {
            return true;
        }
        i = i + 1;
    }
    false
}

/// The position of the first system with the id `id`.
fn first_system_exec(s: &Vec<EduSystem>, id: &str) -> (r: Option<usize>)
    ensures
        match r {
            Some(i) => i < s.len() && first_system(systems_view(s@), id@) == Some(i as int),
            None => first_system(systems_view(s@), id@) is None,
        },
{
    let key = owned(id);
    let ghost v = systems_view(s@);
    let mut i: usize = 0;
    proof {
        assert(v.skip(0) =~= v);
    }
    while i < s.len()
        invariant
            i <= s.len(),
            v == systems_view(s@),
            key@ == id@,
            first_system(v, id@) == match first_system(v.skip(i as int), id@) {
                Some(j) => Some(j + i),
                None => None,
            },
        decreases s.len() - i,
    {
        proof {
            assert(v.skip(i as int)[0] == s@[i as int]@);
            assert(v.skip(i as int).drop_first() =~= v.skip(i + 1));
        }
        if s[i].id == key {
            return Some(i);
        }
        i = i + 1;
    }
    None
}

/// The mathematical value of a time table: id, name and periods.
pub open spec fn time_table_view(t: TimeTable) -> (Seq<char>, Seq<char>, Seq<(Seq<char>, Seq<char>)>) {
    (t.id@, t.name@, table_view(t.periods@))
}

pub open spec fn time_tables_view(s: Seq<TimeTable>) -> Seq<(Seq<char>, Seq<char>, Seq<(Seq<char>, Seq<char>)>)> {
    s.map_values(|t: TimeTable| time_table_view(t))
}

/// The position of the first time table with the id `id`.
pub open spec fn first_table(s: Seq<(Seq<char>, Seq<char>, Seq<(Seq<char>, Seq<char>)>)>, id: Seq<char>) -> Option<int>
    decreases s.len(),
{
    if s.len() == 0 {
        None
    } else if s[0].0 == id {
        Some(0)
    } else {
        match first_table(s.drop_first(), id) {
            Some(i) => Some(i + 1),
            None => None,
        }
    }
}

/// Saves a time table into the list: it replaces the first table with its
/// id, or is appended when there is none.
pub fn upsert_time_table(tables: Option<Vec<TimeTable>>, table: TimeTable) -> (r: Vec<TimeTable>)
    ensures
        ({
            let before = match tables {
                Some(t) => time_tables_view(t@),
                None => Seq::empty(),
            };
            time_tables_view(r@) == match first_table(before, table.id@) {
                Some(i) => before.update(i, time_table_view(table)),
                None => before.push(time_table_view(table)),
            }
        }),
{
    let mut list: Vec<TimeTable> = match tables {
        Some(t) => t,
        None => Vec::new(),
    };
    let ghost v = time_tables_view(list@);
    let mut i: usize = 0;
    proof {
        assert(v.skip(0) =~= v);
    }
    while i < list.len() && list[i].id != table.id
        invariant
            i <= list.len(),
            v == time_tables_view(list@),
            first_table(v, table.id@) == match first_table(v.skip(i as int), table.id@) {
                Some(j) => Some(j + i),
                None => None,
            },
        decreases list.len() - i,
    {
        proof {
            assert(v.skip(i as int)[0] == time_table_view(list@[i as int]));
            assert(v.skip(i as int).drop_first() =~= v.skip(i + 1));
        }
        i = i + 1;
    }
    if i < list.len() {
        proof {
            assert(v.skip(i as int)[0] == time_table_view(list@[i as int]));
        }
        list.set(i, table);
        proof {
            assert(time_tables_view(list@) =~= v.update(i as int, time_table_view(table)));
        }
    } else {
        let ghost t = table;
        list.push(table);
        proof {
            assert(time_tables_view(list@) =~= v.push(time_table_view(t)));
        }
    }
    list
}

/// A time table whose id is not `id`.
pub open spec fn other_table(id: Seq<char>) -> spec_fn(
    (Seq<char>, Seq<char>, Seq<(Seq<char>, Seq<char>)>),
) -> bool {
    |t: (Seq<char>, Seq<char>, Seq<(Seq<char>, Seq<char>)>)| t.0 != id
}

/// Removes every time table with the id `id`.
pub fn remove_time_table(tables: Vec<TimeTable>, id: &str) -> (r: Vec<TimeTable>)
    ensures
        time_tables_view(r@) == time_tables_view(tables@).filter(other_table(id@)),
{
    let ghost v = time_tables_view(tables@);
    let ghost keep = other_table(id@);
    let key = owned(id);
    let mut input = tables;
    let mut out: Vec<TimeTable> = Vec::new();
    let mut n: usize = 0;
    let total = input.len();
    proof {
        assert(time_tables_view(input@) =~= v.skip(0));
        assert(v.take(0).filter(keep) =~= Seq::empty());
        assert(time_tables_view(out@) =~= Seq::empty());
    }
    while input.len() > 0
        invariant
            n + input.len() == total,
            v.len() == total,
            key@ == id@,
            time_tables_view(input@) == v.skip(n as int),
            keep == other_table(id@),
            time_tables_view(out@) == v.take(n as int).filter(keep),
        decreases input.len(),
    {
        let ghost before = input@;
        let t = input.remove(0);
        proof {
            assert(time_tables_view(before)[0] == time_table_view(t));
            assert(v.skip(n as int)[0] == v[n as int]);
            assert forall|k: int| 0 <= k < input@.len() implies #[trigger] time_tables_view(input@)[k]
                == v.skip(n + 1)[k] by {
                assert(input@[k] == before[k + 1]);
                assert(time_tables_view(before)[k + 1] == v.skip(n as int)[k + 1]);
            }
            assert(time_tables_view(input@) =~= v.skip(n + 1));
            assert(v.take(n + 1).drop_last() =~= v.take(n as int));
            assert(v.take(n + 1).last() == time_table_view(t));
            reveal_with_fuel(Seq::<_>::filter, 1);
        }
        let ghost before_out = out@;
        if t.id != key {
            out.push(t);
            proof {
                assert(time_tables_view(out@) =~= time_tables_view(before_out).push(v[n as int]));
            }
        }
        n = n + 1;
    }
    proof {
        assert(v.take(n as int) =~= v);
    }
    out
}

/// Selects the schedule `schedule_id`, taking over its first day.
pub fn switch_to_schedule(config: &mut AppConfig, schedule_id: String, first_day: Option<i64>)
    ensures
        *final(config) == (AppConfig {
            current_schedule_id: Some(schedule_id),
            first_day,
            ..*old(config)
        }),
{
    config.current_schedule_id = Some(schedule_id);
    config.first_day = first_day;
}

/// Clears the selected schedule when it is `schedule_id`; whether it was.
pub fn deselect_schedule(config: &mut AppConfig, schedule_id: &str) -> (changed: bool)
    ensures
        changed == (old(config).current_schedule_id matches Some(s) && s@ == schedule_id@),
        changed ==> *final(config) == (AppConfig { current_schedule_id: None, ..*old(config) }),
        !changed ==> *final(config) == *old(config),
{
    let matches = match &config.current_schedule_id {
        Some(s) => *s == owned(schedule_id),
        None => false,
    };
    if matches {
        config.current_schedule_id = None;
    }
    matches
}

/// Takes over a schedule's new first day and period count when it is the
/// selected one; whether it was.
pub fn apply_schedule_info(
    config: &mut AppConfig,
    schedule_id: &str,
    first_day: Option<i64>,
    max_periods: Option<i32>,
) -> (changed: bool)
    ensures
        changed == (old(config).current_schedule_id matches Some(s) && s@ == schedule_id@),
        changed ==> *final(config) == (AppConfig {
            first_day,
            max_periods: match max_periods {
                Some(m) => Some(m),
                None => old(config).max_periods,
            },
            ..*old(config)
        }),
        !changed ==> *final(config) == *old(config),
{
    let matches = match &config.current_schedule_id {
        Some(s) => *s == owned(schedule_id),
        None => false,
    };
    if matches {
        config.first_day = first_day;
        match max_periods {
            Some(m) => {
                config.max_periods = Some(m);
            },
            None => {},
        }
    }
    matches
}

/// Records a new background image (and its uncropped original, if any).
pub fn set_background(config: &mut AppConfig, image: Option<String>, original: Option<String>)
    ensures
        *final(config) == (AppConfig {
            background_image: image,
            background_original: original,
            ..*old(config)
        }),
{
    config.background_image = image;
    config.background_original = original;
}

/// Takes over a schedule's period count as the setting; nothing else of
/// the settings changes.
pub fn copy_max_periods(config: &mut AppConfig, source: &CachedSchedule)
    ensures
        *final(config) == (AppConfig { max_periods: source.max_periods, ..*old(config) }),
{
    config.max_periods = source.max_periods;
}

/// After removing the time tables with an id, none with that id is left.
pub proof fn law_removed_time_table_gone(
    tables: Seq<(Seq<char>, Seq<char>, Seq<(Seq<char>, Seq<char>)>)>,
    id: Seq<char>,
)
    ensures
        forall|i: int|
            0 <= i < tables.filter(other_table(id)).len() ==> (#[trigger] tables.filter(
                other_table(id),
            )[i]).0 != id,
{
    broadcast use vstd::seq_lib::group_filter_ensures;

}

/// The schedule to load: the one asked for, else the selected one; an error
/// when there is neither.
pub fn schedule_to_load(schedule_id: Option<String>, selected: &Option<String>) -> (r: Result<
    String,
    String,
>)
    ensures
        match schedule_id {
            Some(s) => r matches Ok(x) && x@ == s@,
            None => match selected {
                Some(c) => r matches Ok(x) && x@ == c@,
                None => r matches Err(m) && m@ == "没有选中的课表"@,
            },
        },
{
    match schedule_id {
        Some(s) => Ok(s),
        None => match selected {
            Some(c) => Ok(c.clone()),
            None => Err(owned("没有选中的课表")),
        },
    }
}

/// Gives `target` the period count, week count and time table of `source`;
/// its first day stays (schedules of different semesters start on
/// different days).
pub fn copy_schedule_settings(target: &mut CachedSchedule, source: &CachedSchedule)
    ensures
        opt_view(final(target).time_table_id) == opt_view(source.time_table_id),
        *final(target) == (CachedSchedule {
            max_periods: source.max_periods,
            weeks_count: source.weeks_count,
            time_table_id: final(target).time_table_id,
            ..*old(target)
        }),
{
    target.max_periods = source.max_periods;
    target.weeks_count = source.weeks_count;
    target.time_table_id = match &source.time_table_id {
        Some(t) => Some(t.clone()),
        None => None,
    };
}

/// Adding an entry whose id `s` already has, or any entry to `s` itself,
/// keeps every id `s` has.
proof fn lemma_push_keeps_systems(s: Seq<EduSystemView>, x: EduSystemView, id: Seq<char>)
    ensures
        has_system(s, id) ==> has_system(s.push(x), id),
        x.id == id ==> has_system(s.push(x), id),
{
    if has_system(s, id) {
        let i = choose|i: int| 0 <= i < s.len() && (#[trigger] s[i]).id == id;
        assert(s.push(x)[i].id == id);
    }
    if x.id == id {
        assert(s.push(x)[s.len() as int].id == id);
    }
}

/// After adding the defaults, both default systems are present.
proof fn lemma_defaults_present(s: Seq<EduSystemView>)
    ensures
        has_system(with_default_systems(s), "cufe"@),
        has_system(with_default_systems(s), "zju"@),
{
    let d = default_systems();
    let s1 = if has_system(s, d[0].id) { s } else { s.push(d[0]) };
    lemma_push_keeps_systems(s, d[0], "cufe"@);
    lemma_push_keeps_systems(s, d[0], "zju"@);
    lemma_push_keeps_systems(s1, d[1], "cufe"@);
    lemma_push_keeps_systems(s1, d[1], "zju"@);
}

/// Changing an entry without changing its id keeps which ids are present
/// and where the first of each is.
proof fn lemma_update_keeps_ids(s: Seq<EduSystemView>, i: int, x: EduSystemView, id: Seq<char>)
    requires
        0 <= i < s.len(),
        x.id == s[i].id,
    ensures
        has_system(s.update(i, x), id) == has_system(s, id),
        first_system(s.update(i, x), id) == first_system(s, id),
    decreases s.len(),
{
    let t = s.update(i, x);
    if has_system(s, id) {
        let j = choose|j: int| 0 <= j < s.len() && (#[trigger] s[j]).id == id;
        assert(t[j].id == id);
    }
    if has_system(t, id) {
        let j = choose|j: int| 0 <= j < t.len() && (#[trigger] t[j]).id == id;
        assert(s[j].id == id);
    }
    if i > 0 {
        assert(t.drop_first() =~= s.drop_first().update(i - 1, x));
        lemma_update_keeps_ids(s.drop_first(), i - 1, x, id);
    } else {
        assert(t.drop_first() =~= s.drop_first());
    }
}

/// The first system with an id is one with that id.
proof fn lemma_first_system_valid(s: Seq<EduSystemView>, id: Seq<char>)
    ensures
        first_system(s, id) matches Some(i) ==> 0 <= i < s.len() && s[i].id == id,
    decreases s.len(),
{
    if s.len() > 0 && s[0].id != id {
        lemma_first_system_valid(s.drop_first(), id);
    }
}

/// Migrating settings a second time changes nothing: the teaching systems
/// stay as the first migration left them and nothing needs saving.
pub proof fn law_migration_settles(
    before: Seq<EduSystemView>,
    old_url: Option<Seq<char>>,
    last: Option<Seq<char>>,
)
    ensures
        ({
            let once = migrated_systems(before, old_url);
            let last_once = if last is None && once.len() > 0 {
                Some(once[0].id)
            } else {
                last
            };
            &&& migrated_systems(once, old_url) == once
            &&& !migration_changes(once, old_url, last_once)
        }),
{
    let added = with_default_systems(before);
    let once = migrated_systems(before, old_url);
    lemma_defaults_present(before);
    lemma_first_system_valid(added, "cufe"@);
    match cufe_url_override(added, old_url) {
        Some((i, u)) => {
            let x = EduSystemView { url: u, ..added[i] };
            lemma_update_keeps_ids(added, i, x, "cufe"@);
            lemma_update_keeps_ids(added, i, x, "zju"@);
        },
        None => {},
    }
    assert(has_system(once, "cufe"@));
    assert(has_system(once, "zju"@));
    assert(with_default_systems(once) == once);
    match cufe_url_override(added, old_url) {
        Some((i, u)) => {
            assert(cufe_url_override(once, old_url) == Some((i, u)));
            assert(once.update(i, EduSystemView { url: u, ..once[i] }) =~= once);
        },
        None => {
            assert(cufe_url_override(once, old_url) is None);
        },
    }
    let j = choose|j: int| 0 <= j < once.len() && (#[trigger] once[j]).id == "cufe"@;
    assert(once.len() > 0);
}

} // verus!
