//! The teaching system's notation for weeks ("4-5周,7-18周", "1-15周(单)")
//! and class periods ("3-4节"), and the week arithmetic that decides whether
//! a course meets in a given week.
use vstd::prelude::*;
use crate::text::{
    chars_of, contains, contains_char, contains_exec, replace_all, replace_all_exec, split,
    split_exec, trim, trim_exec,
};
use crate::numbers::{parse_i32, parse_i32_exec};

verus! {

/// "(单)": odd weeks only (ASCII brackets).
pub open spec fn odd_marker() -> Seq<char> {
    seq!['(', '单', ')']
}

/// "（单）": odd weeks only (full-width brackets).
pub open spec fn odd_marker_wide() -> Seq<char> {
    seq!['（', '单', '）']
}

/// "(双)": even weeks only (ASCII brackets).
pub open spec fn even_marker() -> Seq<char> {
    seq!['(', '双', ')']
}

/// "（双）": even weeks only (full-width brackets).
pub open spec fn even_marker_wide() -> Seq<char> {
    seq!['（', '双', '）']
}

/// "(单双)": both odd and even weeks (ASCII brackets).
pub open spec fn both_marker() -> Seq<char> {
    seq!['(', '单', '双', ')']
}

/// "（单双）": both odd and even weeks (full-width brackets).
pub open spec fn both_marker_wide() -> Seq<char> {
    seq!['（', '单', '双', '）']
}

/// The week type a week text declares: 1 when it carries only an odd-week
/// marker, 2 when it carries only an even-week marker, 0 otherwise (no marker,
/// or both kinds, as in "(单双)").
pub open spec fn week_type_of(s: Seq<char>) -> i32 {
    let odd = contains(s, odd_marker()) || contains(s, odd_marker_wide());
    let even = contains(s, even_marker()) || contains(s, even_marker_wide());
    if odd && !even {
        1
    } else if even && !odd {
        2
    } else {
        0
    }
}

/// The week text with every "周" and every odd/even marker removed.
pub open spec fn strip_week_text(s: Seq<char>) -> Seq<char> {
    let e = Seq::<char>::empty();
    let s1 = replace_all(s, seq!['周'], e);
    let s2 = replace_all(s1, both_marker(), e);
    let s3 = replace_all(s2, both_marker_wide(), e);
    let s4 = replace_all(s3, odd_marker(), e);
    let s5 = replace_all(s4, odd_marker_wide(), e);
    let s6 = replace_all(s5, even_marker(), e);
    replace_all(s6, even_marker_wide(), e)
}

/// The comma-separated parts of a week text.
pub open spec fn week_parts(s: Seq<char>) -> Seq<Seq<char>> {
    split(strip_week_text(s), ',')
}

/// The bounds of a range part "a-b": exactly two pieces around '-', both
/// integers.
pub open spec fn range_bounds(p: Seq<char>) -> Option<(i32, i32)> {
    let r = split(p, '-');
    if r.len() == 2 && parse_i32(r[0]) is Some && parse_i32(r[1]) is Some {
        Some((parse_i32(r[0])->0, parse_i32(r[1])->0))
    } else {
        None
    }
}

/// Week `w` is named by the part `part`: after trimming, either a range
/// "a-b" with a <= w <= b, or (without '-') the single number w.
pub open spec fn part_has_week(part: Seq<char>, w: int) -> bool {
    let p = trim(part);
    if p.len() == 0 {
        false
    } else if p.contains('-') {
        match range_bounds(p) {
            Some((a, b)) => a <= w <= b,
            None => false,
        }
    } else {
        match parse_i32(p) {
            Some(x) => x == w,
            None => false,
        }
    }
}

/// Week `w` is named by some part of the week text `s`.
pub open spec fn week_listed(s: Seq<char>, w: int) -> bool {
    exists|j: int| 0 <= j < week_parts(s).len() && part_has_week(#[trigger] week_parts(s)[j], w)
}

/// Whether a week survives the odd/even filter of `week_type`
/// (`w % 2 == 1` for odd, `w % 2 == 0` for even, with Rust's remainder).
pub open spec fn keeps_week(week_type: i32, w: int) -> bool {
    if week_type == 1 {
        w > 0 && w % 2 == 1
    } else if week_type == 2 {
        w % 2 == 0
    } else {
        true
    }
}

/// Every element is smaller than every later one: sorted, without repeats.
pub open spec fn strictly_increasing(s: Seq<i32>) -> bool {
    forall|i: int, j: int| 0 <= i < j < s.len() ==> s[i] < s[j]
}

/// Whether a week survives the odd/even filter of `week_type`.
pub fn keeps_week_exec(week_type: i32, w: i32) -> (r: bool)
    ensures
        r == keeps_week(week_type, w as int),
{
    if week_type == 1 {
        w > 0 && w % 2 == 1
    } else if week_type == 2 {
        w % 2 == 0
    } else {
        true
    }
}

/// Adds `w` to a strictly increasing list, keeping it strictly increasing.
fn insert_sorted(v: &mut Vec<i32>, w: i32)
    requires
        strictly_increasing(old(v)@),
    ensures
        strictly_increasing(final(v)@),
        forall|x: i32| #[trigger] final(v)@.contains(x) <==> (old(v)@.contains(x) || x == w),
{
    let mut i: usize = 0;
    while i < v.len() && v[i] < w
        invariant
            i <= v.len(),
            forall|j: int| 0 <= j < i ==> v@[j] < w,
        decreases v.len() - i,
    {
        i = i + 1;
    }
    if i < v.len() && v[i] == w {
        return;
    }
    let ghost before = v@;
    v.insert(i, w);
    proof {
        assert forall|a: int, b: int| 0 <= a < b < v@.len() implies v@[a] < v@[b] by {
            if b < i {
            } else if b == i {
            } else if a < i {
                assert(v@[b] == before[b - 1]);
            } else if a == i {
                assert(v@[b] == before[b - 1]);
                assert(before[i as int] > w);
                if b - 1 > i {
                }
            } else {
                assert(v@[a] == before[a - 1]);
                assert(v@[b] == before[b - 1]);
            }
        }
        assert forall|x: i32| #[trigger] v@.contains(x) <==> (before.contains(x) || x == w) by {
            if v@.contains(x) {
                let k = choose|k: int| 0 <= k < v@.len() && v@[k] == x;
                if k < i {
                    assert(before[k] == x);
                } else if k > i {
                    assert(before[k - 1] == x);
                }
            }
            if before.contains(x) {
                let k = choose|k: int| 0 <= k < before.len() && before[k] == x;
                if k < i {
                    assert(v@[k] == x);
                } else {
                    assert(v@[k + 1] == x);
                }
            }
            if x == w {
                assert(v@[i as int] == w);
            }
        }
    }
}

/// Adds every week from `a` to `b` (inclusive) that `week_type` keeps.
fn add_range(v: &mut Vec<i32>, a: i32, b: i32, week_type: i32)
    requires
        a <= b,
        strictly_increasing(old(v)@),
    ensures
        strictly_increasing(final(v)@),
        forall|x: i32| #[trigger]
            final(v)@.contains(x) <==> (old(v)@.contains(x) || (a <= x <= b && keeps_week(
                week_type,
                x as int,
            ))),
{
    let ghost before = v@;
    let mut w: i64 = a as i64;
    while w <= b as i64
        invariant
            a <= w <= b as i64 + 1,
            strictly_increasing(v@),
            forall|x: i32| #[trigger]
                v@.contains(x) <==> (before.contains(x) || (a <= x < w && keeps_week(
                    week_type,
                    x as int,
                ))),
        decreases b as i64 + 1 - w,
    {
        let wi = w as i32;
        if keeps_week_exec(week_type, wi) {
            insert_sorted(v, wi);
        }
        w = w + 1;
    }
}

/// Adds the weeks that one comma-separated part names and `week_type` keeps.
fn add_part(v: &mut Vec<i32>, part: &[char], week_type: i32)
    requires
        strictly_increasing(old(v)@),
    ensures
        strictly_increasing(final(v)@),
        forall|x: i32| #[trigger]
            final(v)@.contains(x) <==> (old(v)@.contains(x) || (part_has_week(part@, x as int)
                && keeps_week(week_type, x as int))),
{
    let p = trim_exec(part);
    if p.len() == 0 {
        return;
    }
    if contains_char(&p, '-') {
        let r = split_exec(&p, '-');
        if r.len() == 2 {
            let a = parse_i32_exec(&r[0]);
            let b = parse_i32_exec(&r[1]);
            match (a, b) {
                (Some(a), Some(b)) => {
                    if a <= b {
                        add_range(v, a, b, week_type);
                    }
                },
                _ => {},
            }
        }
    } else {
        match parse_i32_exec(&p) {
            Some(x) => {
                if keeps_week_exec(week_type, x) {
                    insert_sorted(v, x);
                }
            },
            None => {},
        }
    }
}

/// Parses a week text such as "4-5周,7-18周", "1-15周(单)", "2-16周(双)" or
/// "2周,6周" into its weeks and its week type.
///
/// The week type is 1 (odd weeks) when only an odd-week marker "(单)" or
/// "（单）" occurs, 2 (even weeks) when only an even-week marker occurs, and 0
/// otherwise. The weeks are those named by the parts of the text (ranges
/// "a-b" with a <= b, or single numbers; malformed parts name nothing) that
/// the week type keeps, sorted, each once.
pub fn parse_week_string(week_str: &str) -> (r: (Vec<i32>, i32))
    ensures
        r.1 == week_type_of(week_str@),
        strictly_increasing(r.0@),
        forall|w: i32| #[trigger]
            r.0@.contains(w) <==> (week_listed(week_str@, w as int) && keeps_week(r.1, w as int)),
{
    let s = chars_of(week_str);
    let odd_h = vec!['(', '单', ')'];
    let odd_w = vec!['（', '单', '）'];
    let even_h = vec!['(', '双', ')'];
    let even_w = vec!['（', '双', '）'];
    let both_h = vec!['(', '单', '双', ')'];
    let both_w = vec!['（', '单', '双', '）'];
    let zhou = vec!['周'];
    let empty: Vec<char> = Vec::new();
    proof {
        assert(odd_h@ =~= odd_marker());
        assert(odd_w@ =~= odd_marker_wide());
        assert(even_h@ =~= even_marker());
        assert(even_w@ =~= even_marker_wide());
        assert(both_h@ =~= both_marker());
        assert(both_w@ =~= both_marker_wide());
        assert(zhou@ =~= seq!['周']);
        assert(empty@ =~= Seq::<char>::empty());
    }
    let has_odd = contains_exec(&s, &odd_h) || contains_exec(&s, &odd_w);
    let has_even = contains_exec(&s, &even_h) || contains_exec(&s, &even_w);
    let week_type: i32 = if has_odd && !has_even {
        1
    } else if has_even && !has_odd {
        2
    } else {
        0
    };
    let c1 = replace_all_exec(&s, &zhou, &empty);
    let c2 = replace_all_exec(&c1, &both_h, &empty);
    let c3 = replace_all_exec(&c2, &both_w, &empty);
    let c4 = replace_all_exec(&c3, &odd_h, &empty);
    let c5 = replace_all_exec(&c4, &odd_w, &empty);
    let c6 = replace_all_exec(&c5, &even_h, &empty);
    let clean = replace_all_exec(&c6, &even_w, &empty);
    let parts = split_exec(&clean, ',');
    let ghost sp = week_parts(week_str@);
    assert(clean@ == strip_week_text(week_str@));
    let mut weeks: Vec<i32> = Vec::new();
    let mut k: usize = 0;
    while k < parts.len()
        invariant
            k <= parts.len(),
            sp == week_parts(week_str@),
            parts.len() == sp.len(),
            forall|j: int| 0 <= j < parts.len() ==> #[trigger] parts[j]@ == sp[j],
            strictly_increasing(weeks@),
            forall|x: i32| #[trigger]
                weeks@.contains(x) <==> ((exists|j: int|
                    0 <= j < k && part_has_week(#[trigger] sp[j], x as int)) && keeps_week(
                    week_type,
                    x as int,
                )),
        decreases parts.len() - k,
    {
        let ghost before = weeks@;
        add_part(&mut weeks, &parts[k], week_type);
        proof {
            assert forall|x: i32| #[trigger]
                weeks@.contains(x) <==> ((exists|j: int|
                    0 <= j < k + 1 && part_has_week(#[trigger] sp[j], x as int)) && keeps_week(
                    week_type,
                    x as int,
                )) by {
                if part_has_week(sp[k as int], x as int) {
                    assert(0 <= k < k + 1);
                }
                if exists|j: int| 0 <= j < k + 1 && part_has_week(#[trigger] sp[j], x as int) {
                    let j = choose|j: int| 0 <= j < k + 1 && part_has_week(#[trigger] sp[j], x as int);
                    if j < k {
                        assert(exists|j: int| 0 <= j < k && part_has_week(#[trigger] sp[j], x as int));
                    }
                }
            }
        }
        k = k + 1;
    }
    (weeks, week_type)
}

/// The periods named by a period text such as "3-4节" or "9-11节": after
/// removing "节" and trimming, a range "a-b" with a <= b gives a..=b, a single
/// number gives itself, and anything else gives the default periods 1 and 2.
pub open spec fn periods_of(s: Seq<char>) -> Seq<i32> {
    let clean = trim(replace_all(s, seq!['节'], Seq::<char>::empty()));
    let ascending = match range_bounds(clean) {
        Some((a, b)) => a <= b,
        None => false,
    };
    if clean.contains('-') && ascending {
        let (a, b) = range_bounds(clean)->0;
        Seq::new((b - a + 1) as nat, |i: int| (a + i) as i32)
    } else if parse_i32(clean) is Some {
        seq![parse_i32(clean)->0]
    } else {
        seq![1i32, 2i32]
    }
}

/// Parses a period text such as "3-4节" into the list of periods.
pub fn parse_period_string(period_str: &str) -> (r: Vec<i32>)
    ensures
        r@ == periods_of(period_str@),
{
    let s = chars_of(period_str);
    let jie = vec!['节'];
    let empty: Vec<char> = Vec::new();
    proof {
        assert(jie@ =~= seq!['节']);
        assert(empty@ =~= Seq::<char>::empty());
    }
    let replaced = replace_all_exec(&s, &jie, &empty);
    let clean = trim_exec(&replaced);
    if contains_char(&clean, '-') {
        let parts = split_exec(&clean, '-');
        if parts.len() == 2 {
            match (parse_i32_exec(&parts[0]), parse_i32_exec(&parts[1])) {
                (Some(a), Some(b)) => {
                    if a <= b {
                        let mut r: Vec<i32> = Vec::new();
                        let mut p: i64 = a as i64;
                        while p <= b as i64
                            invariant
                                a <= p <= b as i64 + 1,
                                r@ =~= Seq::new((p - a) as nat, |i: int| (a + i) as i32),
                            decreases b as i64 + 1 - p,
                        {
                            r.push(p as i32);
                            p = p + 1;
                        }
                        return r;
                    }
                },
                _ => {},
            }
        }
    }
    match parse_i32_exec(&clean) {
        Some(p) => vec![p],
        None => vec![1, 2],
    }
}

/// A week text with only an odd-week marker yields odd weeks only, one with
/// only an even-week marker even weeks only; the weeks are sorted and each
/// appears once.
pub proof fn law_week_markers_filter(s: Seq<char>, weeks: Seq<i32>)
    requires
        strictly_increasing(weeks),
        forall|w: i32| #[trigger]
            weeks.contains(w) <==> (week_listed(s, w as int) && keeps_week(week_type_of(s), w as int)),
    ensures
        week_type_of(s) == 1 ==> forall|i: int| 0 <= i < weeks.len() ==> weeks[i] > 0 && #[trigger] weeks[i] % 2 == 1,
        week_type_of(s) == 2 ==> forall|i: int| 0 <= i < weeks.len() ==> #[trigger] weeks[i] % 2 == 0,
        forall|i: int, j: int| 0 <= i < j < weeks.len() ==> weeks[i] < weeks[j],
{
    assert forall|i: int| 0 <= i < weeks.len() implies keeps_week(week_type_of(s), #[trigger] weeks[i] as int) by {
        assert(weeks.contains(weeks[i]));
    }
}

/// A period text always names at least one period.
pub proof fn law_periods_nonempty(s: Seq<char>)
    ensures
        periods_of(s).len() >= 1,
{
}

} // verus!
