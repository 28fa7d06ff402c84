//! Comparison of a stored schedule with a freshly fetched one.
//!
//! Courses are identified by their key: name, day of the week and periods.
//! When several courses of one list share a key, the last of them stands for
//! the key (as when the list is collected into a map).
use vstd::prelude::*;
use crate::models::{Course, CourseType, CourseView, ScheduleDiff, courses_view};

verus! {

/// The identity of a course within a schedule: name, day and periods.
pub open spec fn course_key(c: CourseView) -> (Seq<char>, i32, Seq<i32>) {
    (c.name, c.day_of_week, c.periods)
}

/// Some course of `s` has the key `k`.
pub open spec fn has_key(s: Seq<CourseView>, k: (Seq<char>, i32, Seq<i32>)) -> bool {
    exists|i: int| 0 <= i < s.len() && course_key(#[trigger] s[i]) == k
}

/// The last course of `s` with the key `k`, if any.
pub open spec fn last_with_key(s: Seq<CourseView>, k: (Seq<char>, i32, Seq<i32>)) -> Option<
    CourseView,
>
    decreases s.len(),
{
    if s.len() == 0 {
        None
    } else if course_key(s.last()) == k {
        Some(s.last())
    } else {
        last_with_key(s.drop_last(), k)
    }
}

/// `s[i]` is the last course of `s` with its key.
pub open spec fn is_last_of_key(s: Seq<CourseView>, i: int) -> bool {
    forall|j: int| i < j < s.len() ==> course_key(#[trigger] s[j]) != course_key(s[i])
}

/// Two courses with one key differ in teacher, location, weeks or week type.
pub open spec fn differs(a: CourseView, b: CourseView) -> bool {
    a.teacher != b.teacher || a.location != b.location || a.weeks != b.weeks || a.week_type
        != b.week_type
}

/// Index `i` of `new` stands for a key that `old` lacks.
pub open spec fn is_added(old: Seq<CourseView>, new: Seq<CourseView>, i: int) -> bool {
    is_last_of_key(new, i) && !has_key(old, course_key(new[i]))
}

/// Index `i` of `new` stands for a key whose course in `old` differs.
pub open spec fn is_modified(old: Seq<CourseView>, new: Seq<CourseView>, i: int) -> bool {
    &&& is_last_of_key(new, i)
    &&& last_with_key(old, course_key(new[i])) is Some
    &&& differs(last_with_key(old, course_key(new[i]))->0, new[i])
}

/// Index `i` of `old` stands for a key that `new` lacks, and is not an exam.
pub open spec fn is_removed(old: Seq<CourseView>, new: Seq<CourseView>, i: int) -> bool {
    is_last_of_key(old, i) && !has_key(new, course_key(old[i])) && old[i].course_type
        != CourseType::Exam
}

/// How many of the first `n` indices of `new` are added keys.
pub open spec fn added_upto(old: Seq<CourseView>, new: Seq<CourseView>, n: int) -> nat
    decreases n,
{
    if n <= 0 {
        0
    } else {
        added_upto(old, new, n - 1) + if is_added(old, new, n - 1) {
            1nat
        } else {
            0nat
        }
    }
}

/// How many of the first `n` indices of `new` are modified keys.
pub open spec fn modified_upto(old: Seq<CourseView>, new: Seq<CourseView>, n: int) -> nat
    decreases n,
{
    if n <= 0 {
        0
    } else {
        modified_upto(old, new, n - 1) + if is_modified(old, new, n - 1) {
            1nat
        } else {
            0nat
        }
    }
}

/// How many of the first `n` indices of `old` are removed keys.
pub open spec fn removed_upto(old: Seq<CourseView>, new: Seq<CourseView>, n: int) -> nat
    decreases n,
{
    if n <= 0 {
        0
    } else {
        removed_upto(old, new, n - 1) + if is_removed(old, new, n - 1) {
            1nat
        } else {
            0nat
        }
    }
}

/// The diff of two schedules: keys only in `new` are added, keys whose course
/// differs are modified, keys only in `old` are removed (exams excepted), and
/// the rest of `new` is unchanged.
pub open spec fn schedule_diff(old: Seq<CourseView>, new: Seq<CourseView>) -> ScheduleDiff {
    let added = added_upto(old, new, new.len() as int);
    let modified = modified_upto(old, new, new.len() as int);
    ScheduleDiff {
        added_count: added as usize,
        removed_count: removed_upto(old, new, old.len() as int) as usize,
        modified_count: modified as usize,
        unchanged_count: (new.len() - added - modified) as usize,
    }
}

proof fn lemma_counts_bounded(old: Seq<CourseView>, new: Seq<CourseView>, n: int)
    requires
        0 <= n,
    ensures
        added_upto(old, new, n) + modified_upto(old, new, n) <= n,
        removed_upto(old, new, n) <= n,
    decreases n,
{
    if n > 0 {
        lemma_counts_bounded(old, new, n - 1);
        lemma_last_with_key_found(old, course_key(new[n - 1]));
    }
}

proof fn lemma_last_is_last_with_key(s: Seq<CourseView>, i: int)
    requires
        0 <= i < s.len(),
        is_last_of_key(s, i),
    ensures
        last_with_key(s, course_key(s[i])) == Some(s[i]),
    decreases s.len(),
{
    if i < s.len() - 1 {
        assert(course_key(s[s.len() - 1]) != course_key(s[i]));
        assert(is_last_of_key(s.drop_last(), i));
        lemma_last_is_last_with_key(s.drop_last(), i);
    }
}

proof fn lemma_last_with_key_found(s: Seq<CourseView>, k: (Seq<char>, i32, Seq<i32>))
    ensures
        last_with_key(s, k) is Some <==> has_key(s, k),
        last_with_key(s, k) is Some ==> course_key(last_with_key(s, k)->0) == k,
    decreases s.len(),
{
    if s.len() > 0 {
        lemma_last_with_key_found(s.drop_last(), k);
        if has_key(s, k) && course_key(s.last()) != k {
            let i = choose|i: int| 0 <= i < s.len() && course_key(#[trigger] s[i]) == k;
            assert(s.drop_last()[i] == s[i]);
        }
        if has_key(s.drop_last(), k) {
            let i = choose|i: int| 0 <= i < s.len() - 1 && course_key(#[trigger] s.drop_last()[i]) == k;
            assert(s[i] == s.drop_last()[i]);
        }
    }
}

/// Whether two integer lists are equal.
pub fn ints_equal(a: &[i32], b: &[i32]) -> (r: bool)
    ensures
        r == (a@ == b@),
{
    if a.len() != b.len() {
        return false;
    }
    let mut i: usize = 0;
    while i < a.len()
        invariant
            i <= a.len(),
            a.len() == b.len(),
            forall|j: int| 0 <= j < i ==> a@[j] == b@[j],
        decreases a.len() - i,
    {
        if a[i] != b[i] {
            return false;
        }
        i = i + 1;
    }
    proof {
        assert(a@ =~= b@);
    }
    true
}

/// Whether two courses have the same key.
fn same_key(a: &Course, b: &Course) -> (r: bool)
    ensures
        r == (course_key(a@) == course_key(b@)),
{
    a.name == b.name && a.day_of_week == b.day_of_week && ints_equal(&a.periods, &b.periods)
}

/// Whether some course of `s` has the key of `c`.
fn has_key_exec(s: &[Course], c: &Course) -> (r: bool)
    ensures
        r == has_key(courses_view(s@), course_key(c@)),
{
    let ghost sv = courses_view(s@);
    let mut i: usize = 0;
    while i < s.len()
        invariant
            i <= s.len(),
            sv == courses_view(s@),
            forall|j: int| 0 <= j < i ==> course_key(#[trigger] sv[j]) != course_key(c@),
        decreases s.len() - i,
    {
        if same_key(&s[i], c) {
            assert(course_key(sv[i as int]) == course_key(c@));
            return true;
        }
        i = i + 1;
    }
    false
}

/// Whether `s[i]` is the last course of `s` with its key.
fn is_last_exec(s: &[Course], i: usize) -> (r: bool)
    requires
        i < s.len(),
    ensures
        r == is_last_of_key(courses_view(s@), i as int),
{
    let ghost sv = courses_view(s@);
    let mut j: usize = i + 1;
    while j < s.len()
        invariant
            i < j <= s.len(),
            sv == courses_view(s@),
            forall|m: int| i < m < j ==> course_key(#[trigger] sv[m]) != course_key(sv[i as int]),
        decreases s.len() - j,
    {
        if same_key(&s[j], &s[i]) {
            assert(course_key(sv[j as int]) == course_key(sv[i as int]));
            return false;
        }
        j = j + 1;
    }
    true
}

/// The index of the last course of `s` with the key of `c`.
fn last_with_key_exec(s: &[Course], c: &Course) -> (r: Option<usize>)
    ensures
        match r {
            Some(i) => i < s.len() && last_with_key(courses_view(s@), course_key(c@)) == Some(
                s@[i as int]@,
            ),
            None => last_with_key(courses_view(s@), course_key(c@)) is None,
        },
{
    let ghost sv = courses_view(s@);
    let ghost k = course_key(c@);
    let mut n: usize = s.len();
    proof {
        assert(sv.take(n as int) =~= sv);
    }
    while n > 0
        invariant
            n <= s.len(),
            sv == courses_view(s@),
            k == course_key(c@),
            last_with_key(sv, k) == last_with_key(sv.take(n as int), k),
        decreases n,
    {
        let ghost t = sv.take(n as int);
        proof {
            assert(sv.len() == s.len());
            assert(t.len() == n);
            assert(sv[n - 1] == s@[n - 1]@);
            assert(t.last() == s@[n - 1]@);
            assert(t.drop_last() =~= sv.take(n - 1));
            assert(last_with_key(t, k) == if course_key(t.last()) == k {
                Some(t.last())
            } else {
                last_with_key(t.drop_last(), k)
            });
        }
        if same_key(&s[n - 1], c) {
            return Some(n - 1);
        }
        n = n - 1;
    }
    None
}

/// Compares the stored courses `old_courses` with the fetched `new_courses`.
///
/// Keys (name, day, periods) found only among the new courses are counted as
/// added; keys found in both whose teacher, location, weeks or week type
/// differ as modified; keys found only among the old courses as removed,
/// except exams (the teaching system never lists exams); every other new
/// course is unchanged.
pub fn calculate_schedule_diff(old_courses: &[Course], new_courses: &[Course]) -> (r:
    ScheduleDiff)
    ensures
        r == schedule_diff(courses_view(old_courses@), courses_view(new_courses@)),
{
    let ghost ov = courses_view(old_courses@);
    let ghost nv = courses_view(new_courses@);
    let mut added: usize = 0;
    let mut modified: usize = 0;
    let mut i: usize = 0;
    while i < new_courses.len()
        invariant
            i <= new_courses.len(),
            ov == courses_view(old_courses@),
            nv == courses_view(new_courses@),
            added == added_upto(ov, nv, i as int),
            modified == modified_upto(ov, nv, i as int),
        decreases new_courses.len() - i,
    {
        proof {
            lemma_counts_bounded(ov, nv, i as int);
        }
        let course = &new_courses[i];
        if is_last_exec(new_courses, i) {
            match last_with_key_exec(old_courses, course) {
                None => {
                    proof {
                        lemma_last_with_key_found(ov, course_key(nv[i as int]));
                    }
                    added = added + 1;
                },
                Some(j) => {
                    proof {
                        lemma_last_with_key_found(ov, course_key(nv[i as int]));
                    }
                    let old_course = &old_courses[j];
                    if old_course.teacher != course.teacher || old_course.location
                        != course.location || !ints_equal(&old_course.weeks, &course.weeks)
                        || old_course.week_type != course.week_type {
                        modified = modified + 1;
                    }
                },
            }
        }
        i = i + 1;
    }
    let mut removed: usize = 0;
    let mut i: usize = 0;
    while i < old_courses.len()
        invariant
            i <= old_courses.len(),
            ov == courses_view(old_courses@),
            nv == courses_view(new_courses@),
            removed == removed_upto(ov, nv, i as int),
        decreases old_courses.len() - i,
    {
        proof {
            lemma_counts_bounded(ov, nv, i as int);
        }
        let course = &old_courses[i];
        if is_last_exec(old_courses, i) && !has_key_exec(new_courses, course)
            && course.course_type != CourseType::Exam {
            removed = removed + 1;
        }
        i = i + 1;
    }
    proof {
        lemma_counts_bounded(ov, nv, nv.len() as int);
    }
    ScheduleDiff {
        added_count: added,
        removed_count: removed,
        modified_count: modified,
        unchanged_count: new_courses.len() - added - modified,
    }
}

/// Every fetched course is accounted for exactly once: added, modified and
/// unchanged add up to the number of new courses.
pub proof fn law_diff_accounts_for_new(old: Seq<CourseView>, new: Seq<CourseView>)
    requires
        new.len() <= usize::MAX,
    ensures
        schedule_diff(old, new).added_count + schedule_diff(old, new).modified_count
            + schedule_diff(old, new).unchanged_count == new.len(),
{
    lemma_counts_bounded(old, new, new.len() as int);
}

proof fn lemma_self_counts_zero(s: Seq<CourseView>, n: int)
    requires
        0 <= n <= s.len(),
    ensures
        added_upto(s, s, n) == 0,
        modified_upto(s, s, n) == 0,
        removed_upto(s, s, n) == 0,
    decreases n,
{
    if n > 0 {
        lemma_self_counts_zero(s, n - 1);
        let i = n - 1;
        assert(has_key(s, course_key(s[i])));
        if is_last_of_key(s, i) {
            lemma_last_is_last_with_key(s, i);
        }
    }
}

/// Comparing a schedule with itself finds nothing added, removed or
/// modified: every course is unchanged.
pub proof fn law_diff_with_itself(s: Seq<CourseView>)
    requires
        s.len() <= usize::MAX,
    ensures
        schedule_diff(s, s) == (ScheduleDiff {
            added_count: 0,
            removed_count: 0,
            modified_count: 0,
            unchanged_count: s.len() as usize,
        }),
{
    lemma_self_counts_zero(s, s.len() as int);
}

/// Adding an element leaves every other key where it was.
proof fn lemma_has_key_push(t: Seq<CourseView>, x: CourseView, k: (Seq<char>, i32, Seq<i32>))
    ensures
        has_key(t.push(x), k) == (has_key(t, k) || course_key(x) == k),
{
    let s = t.push(x);
    if has_key(t, k) {
        let i = choose|i: int| 0 <= i < t.len() && course_key(#[trigger] t[i]) == k;
        assert(s[i] == t[i]);
    }
    if course_key(x) == k {
        assert(s[t.len() as int] == x);
    }
    if has_key(s, k) {
        let i = choose|i: int| 0 <= i < s.len() && course_key(#[trigger] s[i]) == k;
        if i < t.len() {
            assert(t[i] == s[i]);
        }
    }
}

/// The counts over the first `n` fetched courses do not see an exam added
/// to the stored list under a key neither list has.
proof fn lemma_push_exam_new_counts(old: Seq<CourseView>, new: Seq<CourseView>, e: CourseView, n: int)
    requires
        0 <= n <= new.len(),
        !has_key(new, course_key(e)),
    ensures
        added_upto(old.push(e), new, n) == added_upto(old, new, n),
        modified_upto(old.push(e), new, n) == modified_upto(old, new, n),
    decreases n,
{
    if n > 0 {
        lemma_push_exam_new_counts(old, new, e, n - 1);
        let k = course_key(new[n - 1]);
        assert(course_key(e) != k);
        lemma_has_key_push(old, e, k);
        assert(old.push(e).drop_last() =~= old);
    }
}

/// The removed count over the first `m` stored courses does not see an
/// exam added after them under a key neither list has.
proof fn lemma_push_exam_removed(old: Seq<CourseView>, new: Seq<CourseView>, e: CourseView, m: int)
    requires
        0 <= m <= old.len(),
        !has_key(old, course_key(e)),
    ensures
        removed_upto(old.push(e), new, m) == removed_upto(old, new, m),
    decreases m,
{
    if m > 0 {
        lemma_push_exam_removed(old, new, e, m - 1);
        let j = m - 1;
        let s = old.push(e);
        assert(s[j] == old[j]);
        assert(course_key(e) != course_key(old[j]));
        assert(is_last_of_key(s, j) == is_last_of_key(old, j)) by {
            if is_last_of_key(old, j) {
                assert forall|q: int| j < q < s.len() implies course_key(#[trigger] s[q]) != course_key(s[j]) by {
                    if q < old.len() {
                        assert(s[q] == old[q]);
                    }
                }
            }
            if is_last_of_key(s, j) {
                assert forall|q: int| j < q < old.len() implies course_key(#[trigger] old[q]) != course_key(old[j]) by {
                    assert(s[q] == old[q]);
                }
            }
        }
    }
}

/// An exam that disappears from the schedule never counts as removed: with
/// an exam under a key that neither list has added to the stored courses,
/// the comparison comes out the same.
pub proof fn law_vanished_exam_not_removed(old: Seq<CourseView>, new: Seq<CourseView>, e: CourseView)
    requires
        e.course_type == CourseType::Exam,
        !has_key(old, course_key(e)),
        !has_key(new, course_key(e)),
    ensures
        schedule_diff(old.push(e), new) == schedule_diff(old, new),
{
    lemma_push_exam_new_counts(old, new, e, new.len() as int);
    lemma_push_exam_removed(old, new, e, old.len() as int);
    let s = old.push(e);
    assert(s[old.len() as int] == e);
    assert(!is_removed(s, new, old.len() as int));
}

/// How many indices below `n` satisfy `f`.
pub open spec fn count_below(n: int, f: spec_fn(int) -> bool) -> nat
    decreases n,
{
    if n <= 0 {
        0
    } else {
        count_below(n - 1, f) + if f(n - 1) {
            1nat
        } else {
            0nat
        }
    }
}

proof fn lemma_count_below_ext(n: int, f: spec_fn(int) -> bool, g: spec_fn(int) -> bool)
    requires
        forall|i: int| 0 <= i < n ==> #[trigger] f(i) == g(i),
    ensures
        count_below(n, f) == count_below(n, g),
    decreases n,
{
    if n > 0 {
        lemma_count_below_ext(n - 1, f, g);
    }
}

/// The keys of `s` that satisfy `p`.
pub open spec fn key_set(s: Seq<CourseView>, p: spec_fn((Seq<char>, i32, Seq<i32>)) -> bool) -> Set<
    (Seq<char>, i32, Seq<i32>),
> {
    Set::new(|k: (Seq<char>, i32, Seq<i32>)| has_key(s, k) && p(k))
}

/// Counting the last course of each key whose key satisfies `p` counts the
/// keys that satisfy `p`.
proof fn lemma_last_keys_count(s: Seq<CourseView>, p: spec_fn((Seq<char>, i32, Seq<i32>)) -> bool)
    ensures
        key_set(s, p).finite(),
        count_below(s.len() as int, |i: int| is_last_of_key(s, i) && p(course_key(s[i])))
            == key_set(s, p).len(),
    decreases s.len(),
{
    let f = |i: int| is_last_of_key(s, i) && p(course_key(s[i]));
    if s.len() == 0 {
        assert(key_set(s, p) =~= Set::empty());
    } else {
        let t = s.drop_last();
        let x = s.last();
        let kx = course_key(x);
        assert(s =~= t.push(x));
        let p2 = |k: (Seq<char>, i32, Seq<i32>)| p(k) && k != kx;
        lemma_last_keys_count(t, p2);
        let g = |i: int| is_last_of_key(t, i) && p2(course_key(t[i]));
        assert forall|i: int| 0 <= i < t.len() implies #[trigger] f(i) == g(i) by {
            assert(s[i] == t[i]);
            if is_last_of_key(s, i) {
                assert(course_key(s[s.len() - 1]) != course_key(s[i]));
                assert forall|q: int| i < q < t.len() implies course_key(#[trigger] t[q]) != course_key(t[i]) by {
                    assert(s[q] == t[q]);
                }
            }
            if is_last_of_key(t, i) && course_key(t[i]) != kx {
                assert forall|q: int| i < q < s.len() implies course_key(#[trigger] s[q]) != course_key(s[i]) by {
                    if q < t.len() {
                        assert(s[q] == t[q]);
                    }
                }
            }
        }
        lemma_count_below_ext(t.len() as int, f, g);
        assert(is_last_of_key(s, s.len() - 1));
        assert forall|k: (Seq<char>, i32, Seq<i32>)| has_key(s, k) == (has_key(t, k) || k == kx) by {
            lemma_has_key_push(t, x, k);
        }
        if p(kx) {
            assert(key_set(s, p) =~= key_set(t, p2).insert(kx));
        } else {
            assert(key_set(s, p) =~= key_set(t, p2));
        }
    }
}

/// The modified count of comparing `old` with `new`, as a count of keys.
proof fn lemma_modified_as_keys(old: Seq<CourseView>, new: Seq<CourseView>)
    ensures
        ({
            let pm = |k: (Seq<char>, i32, Seq<i32>)| last_with_key(old, k) is Some && differs(
                last_with_key(old, k)->0,
                last_with_key(new, k)->0,
            );
            modified_upto(old, new, new.len() as int) == key_set(new, pm).len()
        }),
{
    let pm = |k: (Seq<char>, i32, Seq<i32>)| last_with_key(old, k) is Some && differs(
        last_with_key(old, k)->0,
        last_with_key(new, k)->0,
    );
    let fm = |i: int| is_modified(old, new, i);
    let fk = |i: int| is_last_of_key(new, i) && pm(course_key(new[i]));
    lemma_modified_count_below(old, new, new.len() as int);
    assert forall|i: int| 0 <= i < new.len() implies #[trigger] fm(i) == fk(i) by {
        if is_last_of_key(new, i) {
            lemma_last_is_last_with_key(new, i);
        }
    }
    lemma_count_below_ext(new.len() as int, fm, fk);
    lemma_last_keys_count(new, pm);
}

proof fn lemma_modified_count_below(old: Seq<CourseView>, new: Seq<CourseView>, n: int)
    ensures
        modified_upto(old, new, n) == count_below(n, |i: int| is_modified(old, new, i)),
    decreases n,
{
    if n > 0 {
        lemma_modified_count_below(old, new, n - 1);
    }
}

proof fn lemma_added_is_removed_swapped(old: Seq<CourseView>, new: Seq<CourseView>, n: int)
    requires
        0 <= n <= new.len(),
        forall|i: int| 0 <= i < new.len() ==> (#[trigger] new[i]).course_type != CourseType::Exam,
    ensures
        added_upto(old, new, n) == removed_upto(new, old, n),
    decreases n,
{
    if n > 0 {
        lemma_added_is_removed_swapped(old, new, n - 1);
        assert(new[n - 1].course_type != CourseType::Exam);
    }
}

/// Comparing the lists the other way round turns added courses into removed
/// ones (when the fetched list has no exams) and finds the same modified
/// courses.
pub proof fn law_diff_swapped(old: Seq<CourseView>, new: Seq<CourseView>)
    requires
        forall|i: int| 0 <= i < new.len() ==> (#[trigger] new[i]).course_type != CourseType::Exam,
    ensures
        schedule_diff(old, new).added_count == schedule_diff(new, old).removed_count,
        schedule_diff(old, new).modified_count == schedule_diff(new, old).modified_count,
{
    lemma_added_is_removed_swapped(old, new, new.len() as int);
    lemma_modified_as_keys(old, new);
    lemma_modified_as_keys(new, old);
    let pm = |k: (Seq<char>, i32, Seq<i32>)| last_with_key(old, k) is Some && differs(
        last_with_key(old, k)->0,
        last_with_key(new, k)->0,
    );
    let pm2 = |k: (Seq<char>, i32, Seq<i32>)| last_with_key(new, k) is Some && differs(
        last_with_key(new, k)->0,
        last_with_key(old, k)->0,
    );
    assert forall|k: (Seq<char>, i32, Seq<i32>)| key_set(new, pm).contains(k) == key_set(old, pm2).contains(k) by {
        lemma_last_with_key_found(old, k);
        lemma_last_with_key_found(new, k);
    }
    assert(key_set(new, pm) =~= key_set(old, pm2));
}

/// The diff of one stored course against one fetched course with the same
/// key: nothing is added or removed.
proof fn lemma_single_pair_diff(a: CourseView, b: CourseView)
    requires
        course_key(a) == course_key(b),
    ensures
        schedule_diff(seq![a], seq![b]).added_count == 0,
        schedule_diff(seq![a], seq![b]).removed_count == 0,
        schedule_diff(seq![a], seq![b]).modified_count == (if differs(a, b) {
            1usize
        } else {
            0usize
        }),
        schedule_diff(seq![a], seq![b]).unchanged_count == (if differs(a, b) {
            0usize
        } else {
            1usize
        }),
{
    let old = seq![a];
    let new = seq![b];
    assert(old[0] == a && new[0] == b);
    assert(has_key(old, course_key(b)));
    assert(has_key(new, course_key(a)));
    assert(is_last_of_key(new, 0));
    assert(is_last_of_key(old, 0));
    assert(old.drop_last() =~= Seq::<CourseView>::empty());
    assert(last_with_key(old, course_key(b)) == Some(a));
    assert(!is_added(old, new, 0));
    assert(!is_removed(old, new, 0));
    assert(added_upto(old, new, 0) == 0);
    assert(modified_upto(old, new, 0) == 0);
    assert(removed_upto(old, new, 0) == 0);
}

/// A course that keeps its name, day and periods but changes its room,
/// teacher, weeks or week type is reported as modified, not unchanged.
pub proof fn law_changed_course_is_modified(a: CourseView, b: CourseView)
    requires
        course_key(a) == course_key(b),
        a.location != b.location || a.teacher != b.teacher || a.weeks != b.weeks || a.week_type
            != b.week_type,
    ensures
        schedule_diff(seq![a], seq![b]) == (ScheduleDiff {
            added_count: 0,
            removed_count: 0,
            modified_count: 1,
            unchanged_count: 0,
        }),
{
    lemma_single_pair_diff(a, b);
}

/// A course whose room, teacher, weeks and week type all stay is reported
/// as unchanged, whatever else about it differs.
pub proof fn law_same_course_is_unchanged(a: CourseView, b: CourseView)
    requires
        course_key(a) == course_key(b),
        a.location == b.location,
        a.teacher == b.teacher,
        a.weeks == b.weeks,
        a.week_type == b.week_type,
    ensures
        schedule_diff(seq![a], seq![b]) == (ScheduleDiff {
            added_count: 0,
            removed_count: 0,
            modified_count: 0,
            unchanged_count: 1,
        }),
{
    lemma_single_pair_diff(a, b);
}

} // verus!
