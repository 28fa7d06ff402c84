//! Semester calendars: for each academic year (named by its first calendar
//! year) and term (1 or 2), the first Monday of the term as "YYYY-MM-DD".
//!
//! A calendar is read leniently from JSON: entries with a non-numeric year,
//! a term other than 1 or 2, or a date that is not a valid Monday are
//! skipped.
use vstd::prelude::*;
use crate::numbers::{parse_i32, parse_i32_exec};
use crate::text::chars_of;
use crate::json::{as_object_exec, as_str_exec, text_as_object, text_as_str};
use crate::dates::{parse_ymd, ymd_date};

verus! {

/// Seconds between two fetches of the remote calendar: 60 days.
pub const FETCH_INTERVAL_SECS: i64 = 60 * 24 * 60 * 60;

/// The map that a list of (key, value) pairs describes; a later pair for a
/// key replaces an earlier one.
pub open spec fn map_of_pairs<K, V>(s: Seq<(K, V)>) -> Map<K, V>
    decreases s.len(),
{
    if s.len() == 0 {
        Map::empty()
    } else {
        map_of_pairs(s.drop_last()).insert(s.last().0, s.last().1)
    }
}

/// No two pairs share a key.
pub open spec fn keys_unique<K, V>(s: Seq<(K, V)>) -> bool {
    forall|i: int, j: int| 0 <= i < j < s.len() ==> s[i].0 != s[j].0
}

proof fn lemma_map_of_pairs_has<K, V>(s: Seq<(K, V)>, i: int)
    requires
        keys_unique(s),
        0 <= i < s.len(),
    ensures
        map_of_pairs(s).contains_key(s[i].0),
        map_of_pairs(s)[s[i].0] == s[i].1,
    decreases s.len(),
{
    if i < s.len() - 1 {
        lemma_map_of_pairs_has(s.drop_last(), i);
    }
}

proof fn lemma_map_of_pairs_lacks<K, V>(s: Seq<(K, V)>, k: K)
    requires
        forall|i: int| 0 <= i < s.len() ==> s[i].0 != k,
    ensures
        !map_of_pairs(s).contains_key(k),
    decreases s.len(),
{
    if s.len() > 0 {
        lemma_map_of_pairs_lacks(s.drop_last(), k);
    }
}

proof fn lemma_map_of_pairs_update<K, V>(s: Seq<(K, V)>, i: int, v: V)
    requires
        keys_unique(s),
        0 <= i < s.len(),
    ensures
        map_of_pairs(s.update(i, (s[i].0, v))) == map_of_pairs(s).insert(s[i].0, v),
        keys_unique(s.update(i, (s[i].0, v))),
    decreases s.len(),
{
    let k = s[i].0;
    let u = s.update(i, (k, v));
    if i == s.len() - 1 {
        assert(u.drop_last() =~= s.drop_last());
        assert(map_of_pairs(u) =~= map_of_pairs(s).insert(k, v));
    } else {
        let d = s.drop_last();
        assert(u.drop_last() =~= d.update(i, (k, v)));
        lemma_map_of_pairs_update(d, i, v);
        assert(s.last().0 != k);
        assert(map_of_pairs(u) =~= map_of_pairs(s).insert(k, v));
    }
}

proof fn lemma_map_of_pairs_dom<K, V>(s: Seq<(K, V)>)
    ensures
        map_of_pairs(s).dom() == s.map_values(|p: (K, V)| p.0).to_set(),
    decreases s.len(),
{
    if s.len() > 0 {
        lemma_map_of_pairs_dom(s.drop_last());
        let keys = s.map_values(|p: (K, V)| p.0);
        assert(s.drop_last().map_values(|p: (K, V)| p.0) =~= keys.drop_last());
        assert forall|k: K| #[trigger] keys.to_set().contains(k) <==> keys.drop_last().to_set().insert(
            s.last().0,
        ).contains(k) by {
            if keys.to_set().contains(k) {
                let j = choose|j: int| 0 <= j < keys.len() && keys[j] == k;
                if j < keys.len() - 1 {
                    assert(keys.drop_last()[j] == k);
                }
            }
            if keys.drop_last().to_set().contains(k) {
                let j = choose|j: int| 0 <= j < keys.len() - 1 && keys.drop_last()[j] == k;
                assert(keys[j] == k);
            }
            if k == s.last().0 {
                assert(keys[keys.len() - 1] == k);
            }
        }
        assert(map_of_pairs(s).dom() =~= keys.to_set());
    }
}

/// The terms of a year as (term, first day) pairs.
pub open spec fn terms_pairs(t: Seq<(i32, String)>) -> Seq<(i32, Seq<char>)> {
    t.map_values(|p: (i32, String)| (p.0, p.1@))
}

/// The years of a calendar as (year, terms) pairs.
pub open spec fn years_pairs(y: Seq<(i32, Vec<(i32, String)>)>) -> Seq<(i32, Map<i32, Seq<char>>)> {
    y.map_values(|p: (i32, Vec<(i32, String)>)| (p.0, map_of_pairs(terms_pairs(p.1@))))
}

/// The calendar `c` with `date` recorded as the first day of `term` in
/// `year`.
pub open spec fn with_entry(c: Map<i32, Map<i32, Seq<char>>>, year: i32, term: i32, date: Seq<char>) -> Map<
    i32,
    Map<i32, Seq<char>>,
> {
    c.insert(
        year,
        (if c.contains_key(year) {
            c[year]
        } else {
            Map::empty()
        }).insert(term, date),
    )
}

/// For each academic year and term, the first Monday of the term.
pub struct SemesterCalendar {
    years: Vec<(i32, Vec<(i32, String)>)>,
}

impl View for SemesterCalendar {
    type V = Map<i32, Map<i32, Seq<char>>>;

    closed spec fn view(&self) -> Map<i32, Map<i32, Seq<char>>> {
        map_of_pairs(years_pairs(self.years@))
    }
}

impl SemesterCalendar {
    /// Years and terms are listed once each; every listed year has a term.
    pub closed spec fn wf(&self) -> bool {
        &&& keys_unique(years_pairs(self.years@))
        &&& forall|i: int|
            0 <= i < self.years@.len() ==> keys_unique(terms_pairs(#[trigger] self.years@[i].1@))
                && self.years@[i].1@.len() > 0
    }

    /// An empty calendar.
    pub fn new() -> (r: SemesterCalendar)
        ensures
            r.wf(),
            r@ == Map::<i32, Map<i32, Seq<char>>>::empty(),
    {
        let r = SemesterCalendar { years: Vec::new() };
        assert(years_pairs(r.years@) =~= Seq::empty());
        r
    }

    /// The number of academic years in the calendar.
    pub fn len(&self) -> (r: usize)
        requires
            self.wf(),
        ensures
            r == self@.dom().len(),
    {
        proof {
            let yp = years_pairs(self.years@);
            lemma_map_of_pairs_dom(yp);
            let keys = yp.map_values(|p: (i32, Map<i32, Seq<char>>)| p.0);
            assert(keys.no_duplicates()) by {
                assert forall|i: int, j: int| 0 <= i < keys.len() && 0 <= j < keys.len() && i != j
                    implies keys[i] != keys[j] by {
                    if i < j {
                        assert(yp[i].0 != yp[j].0);
                    } else {
                        assert(yp[j].0 != yp[i].0);
                    }
                }
            }
            keys.unique_seq_to_set();
        }
        self.years.len()
    }

    /// Whether the calendar has no entry.
    pub fn is_empty(&self) -> (r: bool)
        requires
            self.wf(),
        ensures
            r == (self@ == Map::<i32, Map<i32, Seq<char>>>::empty()),
    {
        let ghost yp = years_pairs(self.years@);
        proof {
            if self.years@.len() == 0 {
                assert(yp =~= Seq::<(i32, Map<i32, Seq<char>>)>::empty());
                assert(self@ =~= Map::<i32, Map<i32, Seq<char>>>::empty());
            } else {
                lemma_map_of_pairs_has(yp, 0);
                assert(self@.contains_key(yp[0].0));
                assert(!Map::<i32, Map<i32, Seq<char>>>::empty().contains_key(yp[0].0));
            }
        }
        self.years.len() == 0
    }

    /// Records `date` as the first day of `term` in `year`.
    pub fn insert(&mut self, year: i32, term: i32, date: String)
        requires
            old(self).wf(),
        ensures
            final(self).wf(),
            final(self)@ == with_entry(old(self)@, year, term, date@),
    {
        let ghost yp = years_pairs(self.years@);
        let mut i: usize = 0;
        while i < self.years.len() && self.years[i].0 != year
            invariant
                i <= self.years.len(),
                yp == years_pairs(self.years@),
                forall|j: int| 0 <= j < i ==> self.years@[j].0 != year,
            decreases self.years.len() - i,
        {
            i = i + 1;
        }
        if i == self.years.len() {
            proof {
                assert forall|j: int| 0 <= j < yp.len() implies yp[j].0 != year by {
                    assert(yp[j].0 == self.years@[j].0);
                }
                lemma_map_of_pairs_lacks(yp, year);
            }
            let terms: Vec<(i32, String)> = vec![(term, date)];
            let ghost tv = terms@;
            proof {
                assert(terms_pairs(tv) =~= seq![(term, date@)]);
                assert(terms_pairs(tv).drop_last() =~= Seq::<(i32, Seq<char>)>::empty());
                assert(map_of_pairs(Seq::<(i32, Seq<char>)>::empty()) == Map::<i32, Seq<char>>::empty());
                assert(map_of_pairs(terms_pairs(tv)) == map_of_pairs(terms_pairs(tv).drop_last()).insert(
                    term,
                    date@,
                ));
                assert(map_of_pairs(terms_pairs(tv)) =~= Map::<i32, Seq<char>>::empty().insert(
                    term,
                    date@,
                ));
            }
            let ghost old_years = self.years@;
            self.years.push((year, terms));
            proof {
                assert(years_pairs(self.years@).drop_last() =~= yp);
                assert forall|a: int, b: int|
                    0 <= a < b < years_pairs(self.years@).len() implies years_pairs(
                    self.years@,
                )[a].0 != years_pairs(self.years@)[b].0 by {
                    if b == yp.len() {
                        assert(yp[a].0 != year);
                    } else {
                        assert(yp[a].0 != yp[b].0);
                    }
                }
                assert forall|k: int| 0 <= k < self.years@.len() implies keys_unique(
                    terms_pairs(#[trigger] self.years@[k].1@),
                ) && self.years@[k].1@.len() > 0 by {
                    if k < yp.len() {
                        assert(self.years@[k] == old_years[k]);
                    } else {
                        assert(self.years@[k].1@ == tv);
                    }
                }
            }
        } else {
            proof {
                assert(yp[i as int].0 == year);
                lemma_map_of_pairs_has(yp, i as int);
            }
            let old_terms = &self.years[i].1;
            let ghost otp = terms_pairs(old_terms@);
            let mut new_terms: Vec<(i32, String)> = Vec::new();
            let mut found: bool = false;
            let mut k: usize = 0;
            while k < old_terms.len()
                invariant
                    k <= old_terms.len(),
                    otp == terms_pairs(old_terms@),
                    keys_unique(otp),
                    new_terms.len() == k,
                    found <==> exists|m: int| 0 <= m < k && otp[m].0 == term,
                    forall|m: int| 0 <= m < k ==> new_terms@[m].0 == otp[m].0,
                    forall|m: int|
                        0 <= m < k ==> #[trigger] terms_pairs(new_terms@)[m] == (if otp[m].0 == term {
                            (term, date@)
                        } else {
                            otp[m]
                        }),
                decreases old_terms.len() - k,
            {
                let t = old_terms[k].0;
                let ghost before = new_terms@;
                assert(otp[k as int] == (old_terms@[k as int].0, old_terms@[k as int].1@));
                if t == term {
                    new_terms.push((t, date.clone()));
                    found = true;
                    assert(otp[k as int].0 == term);
                } else {
                    new_terms.push((t, old_terms[k].1.clone()));
                }
                proof {
                    assert(terms_pairs(new_terms@)[k as int] == (new_terms@[k as int].0, new_terms@[k as int].1@));
                    assert forall|m: int| 0 <= m < k + 1 implies #[trigger] terms_pairs(new_terms@)[m]
                        == (if otp[m].0 == term {
                        (term, date@)
                    } else {
                        otp[m]
                    }) by {
                        if m < k {
                            assert(new_terms@[m] == before[m]);
                            assert(terms_pairs(before)[m] == terms_pairs(new_terms@)[m]);
                        }
                    }
                }
                k = k + 1;
            }
            let ghost ntp = terms_pairs(new_terms@);
            if !found {
                proof {
                    assert forall|m: int| 0 <= m < otp.len() implies otp[m].0 != term by {}
                    lemma_map_of_pairs_lacks(otp, term);
                    assert(ntp =~= otp);
                }
                let ghost before = new_terms@;
                new_terms.push((term, date));
                proof {
                    assert(terms_pairs(new_terms@).drop_last() =~= otp);
                    assert forall|a: int, b: int|
                        0 <= a < b < terms_pairs(new_terms@).len() implies terms_pairs(
                        new_terms@,
                    )[a].0 != terms_pairs(new_terms@)[b].0 by {
                        let np = terms_pairs(new_terms@);
                        assert(np[a] == np.drop_last()[a]);
                        assert(np[a] == otp[a]);
                        if b == otp.len() {
                            assert(np[b] == (new_terms@[b].0, new_terms@[b].1@));
                            assert(otp[a].0 != term);
                        } else {
                            assert(np[b] == np.drop_last()[b]);
                            assert(otp[a].0 != otp[b].0);
                        }
                    }
                }
            } else {
                proof {
                    let m = choose|m: int| 0 <= m < otp.len() && otp[m].0 == term;
                    lemma_map_of_pairs_update(otp, m, date@);
                    assert(ntp =~= otp.update(m, (term, date@)));
                }
            }
            proof {
                assert(map_of_pairs(terms_pairs(new_terms@)) == map_of_pairs(otp).insert(
                    term,
                    date@,
                ));
                assert(new_terms@.len() > 0);
                assert(keys_unique(terms_pairs(new_terms@)));
            }
            let ghost old_years = self.years@;
            let ghost nt = new_terms@;
            self.years.set(i, (year, new_terms));
            proof {
                lemma_map_of_pairs_update(yp, i as int, map_of_pairs(otp).insert(term, date@));
                assert(years_pairs(self.years@) =~= yp.update(
                    i as int,
                    (year, map_of_pairs(otp).insert(term, date@)),
                ));
                assert forall|q: int| 0 <= q < self.years@.len() implies keys_unique(
                    terms_pairs(#[trigger] self.years@[q].1@),
                ) && self.years@[q].1@.len() > 0 by {
                    if q != i {
                        assert(self.years@[q] == old_years[q]);
                    } else {
                        assert(self.years@[q].1@ == nt);
                    }
                }
            }
        }
    }


    /// Every recorded (year, term, first day), each once.
    pub fn entries(&self) -> (r: Vec<(i32, i32, String)>)
        requires
            self.wf(),
        ensures
            forall|i: int|
                0 <= i < r.len() ==> self@.contains_key(#[trigger] r@[i].0) && self@[r@[i].0].contains_key(
                    r@[i].1,
                ) && self@[r@[i].0][r@[i].1] == r@[i].2@,
            forall|y: i32, t: i32|
                self@.contains_key(y) && self@[y].contains_key(t) ==> exists|i: int|
                    0 <= i < r.len() && (#[trigger] r@[i]).0 == y && r@[i].1 == t,
    {
        let ghost yp = years_pairs(self.years@);
        let mut out: Vec<(i32, i32, String)> = Vec::new();
        let mut i: usize = 0;
        while i < self.years.len()
            invariant
                i <= self.years.len(),
                self.wf(),
                yp == years_pairs(self.years@),
                forall|k: int|
                    0 <= k < out.len() ==> self@.contains_key(#[trigger] out@[k].0) && self@[out@[k].0].contains_key(
                        out@[k].1,
                    ) && self@[out@[k].0][out@[k].1] == out@[k].2@,
                forall|j: int, t: i32|
                    0 <= j < i && #[trigger] yp[j].1.contains_key(t) ==> exists|k: int|
                        0 <= k < out.len() && (#[trigger] out@[k]).0 == yp[j].0 && out@[k].1 == t,
            decreases self.years.len() - i,
        {
            let year = self.years[i].0;
            let terms = &self.years[i].1;
            let ghost tp = terms_pairs(terms@);
            proof {
                assert(yp[i as int] == (year, map_of_pairs(tp)));
                lemma_map_of_pairs_has(yp, i as int);
            }
            let mut k: usize = 0;
            while k < terms.len()
                invariant
                    k <= terms.len(),
                    self.wf(),
                    yp == years_pairs(self.years@),
                    tp == terms_pairs(terms@),
                    keys_unique(tp),
                    self@.contains_key(year),
                    self@[year] == map_of_pairs(tp),
                    yp[i as int] == (year, map_of_pairs(tp)),
                    forall|m: int|
                        0 <= m < out.len() ==> self@.contains_key(#[trigger] out@[m].0) && self@[out@[m].0].contains_key(
                            out@[m].1,
                        ) && self@[out@[m].0][out@[m].1] == out@[m].2@,
                    forall|j: int, t: i32|
                        0 <= j < i && #[trigger] yp[j].1.contains_key(t) ==> exists|m: int|
                            0 <= m < out.len() && (#[trigger] out@[m]).0 == yp[j].0 && out@[m].1 == t,
                    forall|q: int| 0 <= q < k ==> exists|m: int|
                        0 <= m < out.len() && (#[trigger] out@[m]).0 == year && out@[m].1 == #[trigger] tp[q].0,
                decreases terms.len() - k,
            {
                proof {
                    assert(tp[k as int] == (terms@[k as int].0, terms@[k as int].1@));
                    lemma_map_of_pairs_has(tp, k as int);
                }
                let ghost before = out@;
                out.push((year, terms[k].0, terms[k].1.clone()));
                proof {
                    assert(out@[out@.len() - 1] == (year, tp[k as int].0, terms@[k as int].1));
                    assert forall|j: int, t: i32|
                        0 <= j < i && #[trigger] yp[j].1.contains_key(t) implies exists|m: int|
                            0 <= m < out.len() && (#[trigger] out@[m]).0 == yp[j].0 && out@[m].1 == t by {
                        let m = choose|m: int|
                            0 <= m < before.len() && (#[trigger] before[m]).0 == yp[j].0 && before[m].1 == t;
                        assert(out@[m] == before[m]);
                    }
                    assert forall|q: int| 0 <= q < k + 1 implies exists|m: int|
                        0 <= m < out.len() && (#[trigger] out@[m]).0 == year && out@[m].1 == #[trigger] tp[q].0 by {
                        if q < k {
                            let m = choose|m: int|
                                0 <= m < before.len() && (#[trigger] before[m]).0 == year && before[m].1 == tp[q].0;
                            assert(out@[m] == before[m]);
                        } else {
                            assert(out@[out@.len() - 1].1 == tp[q].0);
                        }
                    }
                }
                k = k + 1;
            }
            proof {
                lemma_map_of_pairs_dom(tp);
                assert forall|j: int, t: i32|
                    0 <= j < i + 1 && #[trigger] yp[j].1.contains_key(t) implies exists|m: int|
                        0 <= m < out.len() && (#[trigger] out@[m]).0 == yp[j].0 && out@[m].1 == t by {
                    if j == i {
                        let keys = tp.map_values(|p: (i32, Seq<char>)| p.0);
                        assert(keys.to_set().contains(t));
                        let q = choose|q: int| 0 <= q < keys.len() && keys[q] == t;
                        assert(tp[q].0 == t);
                    }
                }
            }
            i = i + 1;
        }
        proof {
            assert forall|y: i32, t: i32|
                self@.contains_key(y) && self@[y].contains_key(t) implies exists|k: int|
                    0 <= k < out.len() && (#[trigger] out@[k]).0 == y && out@[k].1 == t by {
                lemma_map_of_pairs_dom(yp);
                let keys = yp.map_values(|p: (i32, Map<i32, Seq<char>>)| p.0);
                assert(keys.to_set().contains(y));
                let j = choose|j: int| 0 <= j < keys.len() && keys[j] == y;
                lemma_map_of_pairs_has(yp, j);
                assert(yp[j].1.contains_key(t));
            }
        }
        out
    }

    /// The first day of `term` in `year`, if recorded.
    pub fn lookup(&self, year: i32, term: i32) -> (r: Option<String>)
        requires
            self.wf(),
        ensures
            match r {
                Some(s) => self@.contains_key(year) && self@[year].contains_key(term)
                    && self@[year][term] == s@,
                None => !(self@.contains_key(year) && self@[year].contains_key(term)),
            },
    {
        let ghost yp = years_pairs(self.years@);
        let mut i: usize = 0;
        while i < self.years.len()
            invariant
                i <= self.years.len(),
                self.wf(),
                yp == years_pairs(self.years@),
                forall|j: int| 0 <= j < i ==> self.years@[j].0 != year,
            decreases self.years.len() - i,
        {
            if self.years[i].0 == year {
                proof {
                    assert(yp[i as int].0 == year);
                    lemma_map_of_pairs_has(yp, i as int);
                }
                let terms = &self.years[i].1;
                let ghost tp = terms_pairs(terms@);
                let mut k: usize = 0;
                while k < terms.len()
                    invariant
                        k <= terms.len(),
                        tp == terms_pairs(terms@),
                        keys_unique(tp),
                        self@.contains_key(year),
                        self@[year] == map_of_pairs(tp),
                        forall|m: int| 0 <= m < k ==> terms@[m].0 != term,
                    decreases terms.len() - k,
                {
                    if terms[k].0 == term {
                        proof {
                            assert(tp[k as int] == (terms@[k as int].0, terms@[k as int].1@));
                            lemma_map_of_pairs_has(tp, k as int);
                        }
                        return Some(terms[k].1.clone());
                    }
                    k = k + 1;
                }
                proof {
                    assert forall|m: int| 0 <= m < tp.len() implies tp[m].0 != term by {
                        assert(tp[m].0 == terms@[m].0);
                    }
                    lemma_map_of_pairs_lacks(tp, term);
                }
                return None;
            }
            i = i + 1;
        }
        proof {
            assert forall|j: int| 0 <= j < yp.len() implies yp[j].0 != year by {
                assert(yp[j].0 == self.years@[j].0);
            }
            lemma_map_of_pairs_lacks(yp, year);
        }
        None
    }
}

/// The first day of `term` in `year` in `calendar`, if recorded.
pub fn lookup(calendar: &SemesterCalendar, year: i32, term: i32) -> (r: Option<String>)
    requires
        calendar.wf(),
    ensures
        match r {
            Some(s) => calendar@.contains_key(year) && calendar@[year].contains_key(term)
                && calendar@[year][term] == s@,
            None => !(calendar@.contains_key(year) && calendar@[year].contains_key(term)),
        },
{
    calendar.lookup(year, term)
}

/// The first day of `term` in `year` in a calendar, as a map lookup.
pub open spec fn calendar_day(c: Map<i32, Map<i32, Seq<char>>>, year: i32, term: i32) -> Option<
    Seq<char>,
> {
    if c.contains_key(year) && c[year].contains_key(term) {
        Some(c[year][term])
    } else {
        None
    }
}

/// Looks `year` and `term` up in the cached (downloaded) calendar first and
/// in the built-in calendar when the cache has no such entry.
pub fn lookup_with_fallback(
    cached: Option<&SemesterCalendar>,
    builtin: &SemesterCalendar,
    year: i32,
    term: i32,
) -> (r: Option<String>)
    requires
        cached matches Some(c) ==> c.wf(),
        builtin.wf(),
    ensures
        ({
            let from_cache = match cached {
                Some(c) => calendar_day(c@, year, term),
                None => None,
            };
            match from_cache {
                Some(d) => r matches Some(s) && s@ == d,
                None => match calendar_day(builtin@, year, term) {
                    Some(d) => r matches Some(s) && s@ == d,
                    None => r is None,
                },
            }
        }),
{
    match cached {
        Some(c) => match lookup(c, year, term) {
            Some(d) => {
                return Some(d);
            },
            None => {},
        },
        None => {},
    }
    lookup(builtin, year, term)
}

/// Whether to fetch the remote calendar again: when it was never fetched, or
/// when at least [`FETCH_INTERVAL_SECS`] have passed since the last fetch (a
/// clock set back means no fetch).
pub fn should_fetch(last_fetched: Option<i64>, now: i64) -> (r: bool)
    requires
        last_fetched matches Some(last) ==> i64::MIN <= now - last <= i64::MAX,
    ensures
        r == match last_fetched {
            None => true,
            Some(last) => now - last >= FETCH_INTERVAL_SECS,
        },
{
    match last_fetched {
        None => true,
        Some(last) => now - last >= FETCH_INTERVAL_SECS,
    }
}

/// The text is a valid "YYYY-MM-DD" date that falls on a Monday.
pub open spec fn valid_monday(date: Seq<char>) -> bool {
    match ymd_date(date) {
        Ok((_, weekday)) => weekday == 0,
        Err(_) => false,
    }
}

/// Whether `date` is a valid "YYYY-MM-DD" date that falls on a Monday.
pub fn is_valid_monday(date: &str) -> (r: bool)
    ensures
        r == valid_monday(date@),
{
    match parse_ymd(date, "%Y-%m-%d") {
        Ok((_, weekday)) => weekday == 0,
        Err(_) => false,
    }
}

/// The entry a term member (`term_key`: JSON text of the date) contributes:
/// the date must be a string, the term 1 or 2, the date a valid Monday.
pub open spec fn term_entry(term_key: Seq<char>, date_text: Seq<char>) -> Option<(i32, Seq<char>)> {
    match text_as_str(date_text) {
        None => None,
        Some(d) => match parse_i32(term_key) {
            Some(t) => if (t == 1 || t == 2) && valid_monday(d) {
                Some((t, d))
            } else {
                None
            },
            None => None,
        },
    }
}

/// `m` with the valid terms among `terms` recorded for `year`, in order.
pub open spec fn add_terms(
    m: Map<i32, Map<i32, Seq<char>>>,
    year: i32,
    terms: Seq<(Seq<char>, Seq<char>)>,
) -> Map<i32, Map<i32, Seq<char>>>
    decreases terms.len(),
{
    if terms.len() == 0 {
        m
    } else {
        let prev = add_terms(m, year, terms.drop_last());
        match term_entry(terms.last().0, terms.last().1) {
            Some((t, d)) => prev.insert(
                year,
                (if prev.contains_key(year) {
                    prev[year]
                } else {
                    Map::empty()
                }).insert(t, d),
            ),
            None => prev,
        }
    }
}

/// The calendar that the members of the top-level JSON object describe: a
/// member whose key is a year and whose value is an object contributes its
/// valid terms.
pub open spec fn calendar_of_members(members: Seq<(Seq<char>, Seq<char>)>) -> Map<
    i32,
    Map<i32, Seq<char>>,
>
    decreases members.len(),
{
    if members.len() == 0 {
        Map::empty()
    } else {
        let prev = calendar_of_members(members.drop_last());
        match parse_i32(members.last().0) {
            None => prev,
            Some(year) => match text_as_object(members.last().1) {
                None => prev,
                Some(terms) => add_terms(prev, year, terms),
            },
        }
    }
}

/// What a calendar text describes: `None` when it is not a JSON object or
/// when no entry survives.
pub open spec fn calendar_of_text(text: Seq<char>) -> Option<Map<i32, Map<i32, Seq<char>>>> {
    match text_as_object(text) {
        None => None,
        Some(members) => {
            let m = calendar_of_members(members);
            if m == Map::<i32, Map<i32, Seq<char>>>::empty() {
                None
            } else {
                Some(m)
            }
        },
    }
}

/// Reads a calendar text leniently: `None` when the text is not a JSON
/// object or when every entry is skipped; otherwise the entries whose year
/// is a number, whose term is 1 or 2 and whose date is a valid Monday.
pub fn parse_calendar_text(text: &str) -> (r: Option<SemesterCalendar>)
    ensures
        match r {
            Some(c) => c.wf() && calendar_of_text(text@) == Some(c@),
            None => calendar_of_text(text@) is None,
        },
{
    let members = match as_object_exec(text) {
        Some(m) => m,
        None => {
            return None;
        },
    };
    let ghost mv = members@.map_values(|p: (String, String)| (p.0@, p.1@));
    let mut calendar = SemesterCalendar::new();
    let mut i: usize = 0;
    proof {
        assert(mv.take(0) =~= Seq::<(Seq<char>, Seq<char>)>::empty());
    }
    while i < members.len()
        invariant
            i <= members.len(),
            mv == members@.map_values(|p: (String, String)| (p.0@, p.1@)),
            text_as_object(text@) == Some(mv),
            calendar.wf(),
            calendar@ == calendar_of_members(mv.take(i as int)),
        decreases members.len() - i,
    {
        proof {
            assert(mv.take(i + 1).drop_last() =~= mv.take(i as int));
            assert(mv.take(i + 1).last() == (members@[i as int].0@, members@[i as int].1@));
        }
        match parse_i32_exec(&chars_of(members[i].0.as_str())) {
            None => {},
            Some(year) => match as_object_exec(members[i].1.as_str()) {
                None => {},
                Some(terms) => {
                    let ghost tv = terms@.map_values(|p: (String, String)| (p.0@, p.1@));
                    let ghost base = calendar@;
                    let mut k: usize = 0;
                    proof {
                        assert(tv.take(0) =~= Seq::<(Seq<char>, Seq<char>)>::empty());
                    }
                    while k < terms.len()
                        invariant
                            k <= terms.len(),
                            tv == terms@.map_values(|p: (String, String)| (p.0@, p.1@)),
                            calendar.wf(),
                            calendar@ == add_terms(base, year, tv.take(k as int)),
                        decreases terms.len() - k,
                    {
                        proof {
                            assert(tv.take(k + 1).drop_last() =~= tv.take(k as int));
                            assert(tv.take(k + 1).last() == (terms@[k as int].0@, terms@[k as int].1@));
                        }
                        match as_str_exec(terms[k].1.as_str()) {
                            None => {},
                            Some(date) => match parse_i32_exec(&chars_of(terms[k].0.as_str())) {
                                None => {},
                                Some(term) => {
                                    if (term == 1 || term == 2) && is_valid_monday(date.as_str()) {
                                        calendar.insert(year, term, date);
                                    }
                                },
                            },
                        }
                        k = k + 1;
                    }
                    proof {
                        assert(tv.take(terms.len() as int) =~= tv);
                    }
                },
            },
        }
        i = i + 1;
    }
    proof {
        assert(mv.take(members.len() as int) =~= mv);
    }
    if calendar.is_empty() {
        None
    } else {
        Some(calendar)
    }
}

/// Every term of `tm` is 1 or 2 and starts on a valid Monday.
pub open spec fn terms_valid(tm: Map<i32, Seq<char>>) -> bool {
    forall|t: i32| #[trigger] tm.contains_key(t) ==> (t == 1 || t == 2) && valid_monday(tm[t])
}

/// Every entry of `m` is for term 1 or 2 and falls on a valid Monday.
pub open spec fn entries_valid(m: Map<i32, Map<i32, Seq<char>>>) -> bool {
    forall|y: i32| #[trigger] m.contains_key(y) ==> terms_valid(m[y])
}

proof fn lemma_add_terms_valid(m: Map<i32, Map<i32, Seq<char>>>, year: i32, terms: Seq<(Seq<char>, Seq<char>)>)
    requires
        entries_valid(m),
    ensures
        entries_valid(add_terms(m, year, terms)),
    decreases terms.len(),
{
    if terms.len() > 0 {
        lemma_add_terms_valid(m, year, terms.drop_last());
        let prev = add_terms(m, year, terms.drop_last());
        match term_entry(terms.last().0, terms.last().1) {
            Some((t, d)) => {
                let inner = (if prev.contains_key(year) {
                    prev[year]
                } else {
                    Map::empty()
                }).insert(t, d);
                let next = prev.insert(year, inner);
                assert((t == 1 || t == 2) && valid_monday(d));
                assert(add_terms(m, year, terms) == next);
                assert(terms_valid(inner)) by {
                    assert forall|u: i32| #[trigger] inner.contains_key(u) implies (u == 1 || u == 2)
                        && valid_monday(inner[u]) by {
                        if u != t {
                            assert(prev.contains_key(year));
                            assert(terms_valid(prev[year]));
                        }
                    }
                }
                assert forall|y: i32| #[trigger] next.contains_key(y) implies terms_valid(next[y]) by {
                    if y != year {
                        assert(prev.contains_key(y));
                    }
                }
                assert(entries_valid(next));
            },
            None => {
                assert(add_terms(m, year, terms) == prev);
            },
        }
    }
}

proof fn lemma_members_valid(members: Seq<(Seq<char>, Seq<char>)>)
    ensures
        entries_valid(calendar_of_members(members)),
    decreases members.len(),
{
    if members.len() > 0 {
        lemma_members_valid(members.drop_last());
        let prev = calendar_of_members(members.drop_last());
        match parse_i32(members.last().0) {
            None => {},
            Some(year) => match text_as_object(members.last().1) {
                None => {},
                Some(terms) => {
                    lemma_add_terms_valid(prev, year, terms);
                },
            },
        }
    } else {
        assert(calendar_of_members(members) =~= Map::empty());
    }
}

/// A calendar read from text holds only valid entries: every term is 1 or 2
/// and every first day is a valid Monday.
pub proof fn law_parsed_calendar_entries_valid(text: Seq<char>)
    ensures
        calendar_of_text(text) matches Some(m) ==> entries_valid(m),
{
    match text_as_object(text) {
        Some(members) => lemma_members_valid(members),
        None => {},
    }
}


/// Looking up a first day just recorded gives it back, and recording one
/// leaves every other year and term as it was.
pub proof fn law_lookup_after_insert(
    c: Map<i32, Map<i32, Seq<char>>>,
    year: i32,
    term: i32,
    date: Seq<char>,
    other_year: i32,
    other_term: i32,
)
    ensures
        calendar_day(with_entry(c, year, term, date), year, term) == Some(date),
        (other_year != year || other_term != term) ==> calendar_day(
            with_entry(c, year, term, date),
            other_year,
            other_term,
        ) == calendar_day(c, other_year, other_term),
{
}

} // verus!
