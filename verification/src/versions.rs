//! Version numbers ("2.4.0", "v2.7.1") and the decision whether a published
//! release is an update the user should be told about.
use vstd::prelude::*;
use crate::text::{chars_of, lemma_split_at_sep, lemma_split_no_sep, split, split_exec, strip_leading,
    strip_leading_exec, string_of,
};
use crate::numbers::{all_digits, digits_value, parse_u32, parse_u32_exec};

verus! {

/// The numbers among `pieces`, in order; pieces that are not a `u32` are left out.
pub open spec fn numeric_parts(pieces: Seq<Seq<char>>) -> Seq<u32>
    decreases pieces.len(),
{
    if pieces.len() == 0 {
        Seq::empty()
    } else {
        let rest = numeric_parts(pieces.drop_last());
        match parse_u32(pieces.last()) {
            Some(x) => rest.push(x),
            None => rest,
        }
    }
}

/// The numeric components of a version text: leading 'v's removed, split at
/// '.', non-numeric components dropped.
pub open spec fn version_parts(v: Seq<char>) -> Seq<u32> {
    numeric_parts(split(strip_leading(v, 'v'), '.'))
}

/// Compares component lists: 1 when `latest` is newer, -1 when `current` is
/// newer, 0 when equal. The first differing component decides; when one list
/// is a prefix of the other, the longer one is newer.
pub open spec fn compare_parts(current: Seq<u32>, latest: Seq<u32>) -> i32
    decreases current.len(),
{
    if current.len() == 0 || latest.len() == 0 {
        if latest.len() > current.len() {
            1
        } else if current.len() > latest.len() {
            -1i32
        } else {
            0
        }
    } else if latest[0] > current[0] {
        1
    } else if current[0] > latest[0] {
        -1i32
    } else {
        compare_parts(current.drop_first(), latest.drop_first())
    }
}

/// The comparison of two version texts.
pub open spec fn version_order(current: Seq<char>, latest: Seq<char>) -> i32 {
    compare_parts(version_parts(current), version_parts(latest))
}

/// The numeric components of a version text.
fn version_parts_exec(v: &str) -> (r: Vec<u32>)
    ensures
        r@ == version_parts(v@),
{
    let chars = chars_of(v);
    let stripped = strip_leading_exec(&chars, 'v');
    let pieces = split_exec(&stripped, '.');
    let ghost sp = split(strip_leading(v@, 'v'), '.');
    let mut out: Vec<u32> = Vec::new();
    let mut i: usize = 0;
    proof {
        assert(sp.take(0) =~= Seq::<Seq<char>>::empty());
    }
    while i < pieces.len()
        invariant
            i <= pieces.len(),
            pieces.len() == sp.len(),
            sp == split(strip_leading(v@, 'v'), '.'),
            forall|j: int| 0 <= j < pieces.len() ==> #[trigger] pieces[j]@ == sp[j],
            out@ == numeric_parts(sp.take(i as int)),
        decreases pieces.len() - i,
    {
        proof {
            assert(sp.take(i + 1).drop_last() =~= sp.take(i as int));
            assert(sp.take(i + 1).last() == pieces[i as int]@);
        }
        match parse_u32_exec(&pieces[i]) {
            Some(x) => out.push(x),
            None => {},
        }
        i = i + 1;
    }
    proof {
        assert(sp.take(pieces.len() as int) =~= sp);
    }
    out
}

/// Compares the version texts `current` and `latest`: 1 when `latest` is
/// newer, 0 when they are equal, -1 when `current` is newer.
pub fn compare_versions(current: &str, latest: &str) -> (r: i32)
    ensures
        r == version_order(current@, latest@),
{
    let c = version_parts_exec(current);
    let l = version_parts_exec(latest);
    let mut i: usize = 0;
    proof {
        assert(c@.skip(0) =~= c@);
        assert(l@.skip(0) =~= l@);
    }
    while i < c.len() && i < l.len()
        invariant
            i <= c.len(),
            i <= l.len(),
            c@ == version_parts(current@),
            l@ == version_parts(latest@),
            compare_parts(c@, l@) == compare_parts(c@.skip(i as int), l@.skip(i as int)),
        decreases c.len() - i,
    {
        proof {
            assert(c@.skip(i as int)[0] == c@[i as int]);
            assert(l@.skip(i as int)[0] == l@[i as int]);
        }
        if l[i] > c[i] {
            return 1;
        }
        if c[i] > l[i] {
            return -1;
        }
        proof {
            assert(c@.skip(i as int).drop_first() =~= c@.skip(i + 1));
            assert(l@.skip(i as int).drop_first() =~= l@.skip(i + 1));
        }
        i = i + 1;
    }
    if l.len() > c.len() {
        return 1;
    }
    if c.len() > l.len() {
        return -1;
    }
    0
}

proof fn lemma_compare_parts_antisymmetric(a: Seq<u32>, b: Seq<u32>)
    ensures
        compare_parts(a, b) == -compare_parts(b, a),
    decreases a.len(),
{
    if a.len() > 0 && b.len() > 0 && a[0] == b[0] {
        lemma_compare_parts_antisymmetric(a.drop_first(), b.drop_first());
    }
}

proof fn lemma_compare_parts_reflexive(a: Seq<u32>)
    ensures
        compare_parts(a, a) == 0,
    decreases a.len(),
{
    if a.len() > 0 {
        lemma_compare_parts_reflexive(a.drop_first());
    }
}

proof fn lemma_compare_parts_transitive(a: Seq<u32>, b: Seq<u32>, c: Seq<u32>)
    requires
        compare_parts(a, b) == 1,
        compare_parts(b, c) == 1,
    ensures
        compare_parts(a, c) == 1,
    decreases a.len(),
{
    if a.len() > 0 && b.len() > 0 && c.len() > 0 && a[0] == b[0] && b[0] == c[0] {
        lemma_compare_parts_transitive(a.drop_first(), b.drop_first(), c.drop_first());
    }
}

/// Swapping the two versions flips the answer.
pub proof fn law_compare_versions_antisymmetric(a: Seq<char>, b: Seq<char>)
    ensures
        version_order(a, b) == -version_order(b, a),
{
    lemma_compare_parts_antisymmetric(version_parts(a), version_parts(b));
}

/// A version is equal to itself.
pub proof fn law_compare_versions_reflexive(a: Seq<char>)
    ensures
        version_order(a, a) == 0,
{
    lemma_compare_parts_reflexive(version_parts(a));
}

/// "Is newer than" is transitive.
pub proof fn law_compare_versions_transitive(a: Seq<char>, b: Seq<char>, c: Seq<char>)
    requires
        version_order(a, b) == 1,
        version_order(b, c) == 1,
    ensures
        version_order(a, c) == 1,
{
    lemma_compare_parts_transitive(version_parts(a), version_parts(b), version_parts(c));
}

/// What the release service reports about the latest release.
pub struct ReleaseInfo {
    pub tag_name: String,
    pub name: Option<String>,
    pub body: Option<String>,
    pub html_url: String,
}

/// What the user is told about an available update.
#[derive(Debug)]
pub struct UpdateInfo {
    pub version: String,
    pub title: String,
    pub release_notes: String,
    pub release_url: String,
}

/// The text of an optional string, or `default` when there is none.
pub open spec fn text_or(o: Option<String>, default: Seq<char>) -> Seq<char> {
    match o {
        Some(s) => s@,
        None => default,
    }
}

/// Decides whether the latest release is an update to announce.
///
/// The release's version is its tag without leading 'v's. There is nothing to
/// announce when that version is not newer than `current_version`, nor, for
/// an automatic check, when it equals the version the user chose to skip.
/// Otherwise the update is described by that version, the release name (or
/// the tag when it has none), the release notes (or nothing) and its page.
pub fn update_from_release(
    current_version: &str,
    auto_check: bool,
    skipped_version: &Option<String>,
    release: ReleaseInfo,
) -> (r: Option<UpdateInfo>)
    ensures
        ({
            let latest = strip_leading(release.tag_name@, 'v');
            let skipped = match skipped_version {
                Some(s) => auto_check && version_order(s@, latest) == 0,
                None => false,
            };
            if version_order(current_version@, latest) <= 0 || skipped {
                r is None
            } else {
                &&& r is Some
                &&& r->0.version@ == latest
                &&& r->0.title@ == text_or(release.name, release.tag_name@)
                &&& r->0.release_notes@ == text_or(release.body, Seq::empty())
                &&& r->0.release_url@ == release.html_url@
            }
        }),
{
    let tag = chars_of(release.tag_name.as_str());
    let latest_chars = strip_leading_exec(&tag, 'v');
    let latest = string_of(&latest_chars);
    if compare_versions(current_version, latest.as_str()) <= 0 {
        return None;
    }
    if auto_check {
        match skipped_version {
            Some(s) => {
                if compare_versions(s.as_str(), latest.as_str()) == 0 {
                    return None;
                }
            },
            None => {},
        }
    }
    let title = match release.name {
        Some(n) => n,
        None => release.tag_name,
    };
    let release_notes = match release.body {
        Some(b) => b,
        None => String::new(),
    };
    Some(UpdateInfo { version: latest, title, release_notes, release_url: release.html_url })
}

/// What a failed update check reports: an automatic check stays silent
/// (no update), a manual one reports the failure.
pub fn update_check_failure(auto_check: bool, message: String) -> (r: Result<
    Option<UpdateInfo>,
    String,
>)
    ensures
        auto_check ==> r is Ok && r->Ok_0 is None,
        !auto_check ==> r is Err && r->Err_0@ == message@,
{
    if auto_check {
        Ok(None)
    } else {
        Err(message)
    }
}

/// The numbers of two lists of pieces are those of each, in order.
proof fn lemma_numeric_parts_add(x: Seq<Seq<char>>, y: Seq<Seq<char>>)
    ensures
        numeric_parts(x + y) == numeric_parts(x) + numeric_parts(y),
    decreases y.len(),
{
    if y.len() == 0 {
        assert(x + y =~= x);
        assert(numeric_parts(x) + numeric_parts(y) =~= numeric_parts(x));
    } else {
        lemma_numeric_parts_add(x, y.drop_last());
        assert((x + y).drop_last() =~= x + y.drop_last());
        assert((x + y).last() == y.last());
        match parse_u32(y.last()) {
            Some(v) => {
                assert((numeric_parts(x) + numeric_parts(y.drop_last())).push(v) =~= numeric_parts(x)
                    + numeric_parts(y.drop_last()).push(v));
            },
            None => {},
        }
    }
}

/// A version text that starts with a number and a '.' has that number as
/// its first component, followed by the components of the rest.
pub proof fn law_version_first_component(a: Seq<char>, rest: Seq<char>)
    requires
        a.len() > 0,
        all_digits(a),
        digits_value(a) <= u32::MAX,
    ensures
        version_parts(a + seq!['.'] + rest) == seq![digits_value(a) as u32] + numeric_parts(
            split(rest, '.'),
        ),
{
    let v = a + seq!['.'] + rest;
    assert(v[0] == a[0]);
    assert(strip_leading(v, 'v') == v);
    assert forall|i: int| 0 <= i < a.len() implies a[i] != '.' by {
        assert(crate::numbers::is_digit(a[i]));
    }
    lemma_split_at_sep(a, rest, '.');
    lemma_split_no_sep(a, '.');
    lemma_numeric_parts_add(seq![a], split(rest, '.'));
    assert(seq![a].drop_last() =~= Seq::<Seq<char>>::empty());
    assert(crate::numbers::is_digit(a[0]));
    assert(a[0] != '+');
    assert(a.len() > 0 && all_digits(a) && digits_value(a) <= u32::MAX);
    assert(parse_u32(a) == Some(digits_value(a) as u32));
    assert(seq![a].last() == a);
    assert(numeric_parts(Seq::<Seq<char>>::empty()) =~= Seq::<u32>::empty());
    assert(numeric_parts(seq![a]) =~= seq![digits_value(a) as u32]);
}

/// Leading 'v's do not change a version: "v2.7.1" is version 2.7.1.
pub proof fn law_version_leading_v(s: Seq<char>)
    ensures
        version_parts(seq!['v'] + s) == version_parts(s),
{
    assert((seq!['v'] + s).drop_first() =~= s);
}

/// A release whose major version is higher is newer, whatever follows it:
/// "2.7.2" against "3.0.0" announces the update, and the other way round
/// does not.
pub proof fn law_higher_major_version_is_newer(a: Seq<char>, b: Seq<char>, r1: Seq<char>, r2: Seq<char>)
    requires
        a.len() > 0,
        all_digits(a),
        digits_value(a) <= u32::MAX,
        b.len() > 0,
        all_digits(b),
        digits_value(b) <= u32::MAX,
        digits_value(a) < digits_value(b),
    ensures
        version_order(a + seq!['.'] + r1, b + seq!['.'] + r2) == 1,
        version_order(b + seq!['.'] + r2, a + seq!['.'] + r1) == -1,
{
    law_version_first_component(a, r1);
    law_version_first_component(b, r2);
    let pa = version_parts(a + seq!['.'] + r1);
    let pb = version_parts(b + seq!['.'] + r2);
    assert(pa.len() > 0 && pa[0] == digits_value(a) as u32);
    assert(pb.len() > 0 && pb[0] == digits_value(b) as u32);
    crate::numbers::lemma_digits_value_nonneg(a);
    crate::numbers::lemma_digits_value_nonneg(b);
    assert(pa[0] < pb[0]);
}

} // verus!
