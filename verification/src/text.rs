//! Character-level text operations: the meaning of `str::replace`, `trim`,
//! `split`, `contains`, `starts_with` and ordering of strings, stated over
//! `Seq<char>` and implemented on character vectors.
use vstd::prelude::*;

verus! {

/// `String::push` appends one character.
pub assume_specification[ String::push ](s: &mut String, ch: char)
    ensures
        final(s)@ == old(s)@.push(ch),
;

// ---------------------------------------------------------------------------
// Specifications
// ---------------------------------------------------------------------------

/// Unicode `White_Space`, the set that `char::is_whitespace` (and so `str::trim`) uses.
pub open spec fn is_ws(c: char) -> bool {
    ||| c == '\t'
    ||| c == '\n'
    ||| c == '\u{0B}'
    ||| c == '\u{0C}'
    ||| c == '\r'
    ||| c == ' '
    ||| c == '\u{85}'
    ||| c == '\u{A0}'
    ||| c == '\u{1680}'
    ||| ('\u{2000}' <= c && c <= '\u{200A}')
    ||| c == '\u{2028}'
    ||| c == '\u{2029}'
    ||| c == '\u{202F}'
    ||| c == '\u{205F}'
    ||| c == '\u{3000}'
}

/// `s` with its leading whitespace removed.
pub open spec fn trim_start(s: Seq<char>) -> Seq<char>
    decreases s.len(),
{
    if s.len() > 0 && is_ws(s[0]) {
        trim_start(s.drop_first())
    } else {
        s
    }
}

/// `s` with its trailing whitespace removed.
pub open spec fn trim_end(s: Seq<char>) -> Seq<char>
    decreases s.len(),
{
    if s.len() > 0 && is_ws(s.last()) {
        trim_end(s.drop_last())
    } else {
        s
    }
}

/// `str::trim`.
pub open spec fn trim(s: Seq<char>) -> Seq<char> {
    trim_end(trim_start(s))
}

/// `s` with every leading occurrence of `c` removed (`str::trim_start_matches` with a char).
pub open spec fn strip_leading(s: Seq<char>, c: char) -> Seq<char>
    decreases s.len(),
{
    if s.len() > 0 && s[0] == c {
        strip_leading(s.drop_first(), c)
    } else {
        s
    }
}

/// `pat` occurs in `s` at position `i`.
pub open spec fn occurs_at(s: Seq<char>, pat: Seq<char>, i: int) -> bool {
    0 <= i && i + pat.len() <= s.len() && s.subrange(i, i + pat.len()) == pat
}

/// `str::starts_with`.
pub open spec fn starts_with(s: Seq<char>, pat: Seq<char>) -> bool {
    occurs_at(s, pat, 0)
}

/// `str::contains` with a string pattern.
pub open spec fn contains(s: Seq<char>, pat: Seq<char>) -> bool {
    exists|i: int| occurs_at(s, pat, i)
}

/// `str::replace(pat, rep)`: non-overlapping occurrences of `pat`, found from
/// the left, are replaced by `rep`.
pub open spec fn replace_all(s: Seq<char>, pat: Seq<char>, rep: Seq<char>) -> Seq<char>
    decreases s.len(),
{
    if pat.len() == 0 || s.len() == 0 {
        s
    } else if occurs_at(s, pat, 0) {
        rep + replace_all(s.skip(pat.len() as int), pat, rep)
    } else {
        seq![s[0]] + replace_all(s.drop_first(), pat, rep)
    }
}

/// `str::split` with a char separator: the pieces between separators, in order.
pub open spec fn split(s: Seq<char>, sep: char) -> Seq<Seq<char>>
    decreases s.len(),
{
    if s.len() == 0 {
        seq![Seq::<char>::empty()]
    } else {
        let pieces = split(s.drop_last(), sep);
        if s.last() == sep {
            pieces.push(Seq::<char>::empty())
        } else {
            pieces.update(pieces.len() - 1, pieces.last().push(s.last()))
        }
    }
}

/// Splitting at a separator splits each side.
pub proof fn lemma_split_at_sep(a: Seq<char>, b: Seq<char>, sep: char)
    ensures
        split(a + seq![sep] + b, sep) == split(a, sep) + split(b, sep),
    decreases b.len(),
{
    let s = a + seq![sep] + b;
    lemma_split_nonempty(a, sep);
    if b.len() == 0 {
        assert(s =~= a.push(sep));
        assert(s.drop_last() =~= a);
        assert(split(b, sep) =~= seq![Seq::<char>::empty()]);
        assert(split(a, sep).push(Seq::<char>::empty()) =~= split(a, sep) + split(b, sep));
    } else {
        lemma_split_at_sep(a, b.drop_last(), sep);
        lemma_split_nonempty(b.drop_last(), sep);
        assert(s.drop_last() =~= a + seq![sep] + b.drop_last());
        assert(s.last() == b.last());
        let pa = split(a, sep);
        let pb = split(b.drop_last(), sep);
        if b.last() == sep {
            assert((pa + pb).push(Seq::<char>::empty()) =~= pa + pb.push(Seq::<char>::empty()));
        } else {
            assert((pa + pb).update((pa + pb).len() - 1, (pa + pb).last().push(b.last())) =~= pa
                + pb.update(pb.len() - 1, pb.last().push(b.last())));
        }
    }
}

/// A text without the separator is one piece.
pub proof fn lemma_split_no_sep(a: Seq<char>, sep: char)
    requires
        forall|i: int| 0 <= i < a.len() ==> a[i] != sep,
    ensures
        split(a, sep) == seq![a],
    decreases a.len(),
{
    if a.len() > 0 {
        lemma_split_no_sep(a.drop_last(), sep);
        assert(a.last() != sep);
        assert(a.drop_last().push(a.last()) =~= a);
        let pieces = split(a.drop_last(), sep);
        assert(pieces.len() == 1 && pieces.last() == a.drop_last());
        assert(split(a, sep) == pieces.update(pieces.len() - 1, pieces.last().push(a.last())));
        assert(pieces.update(0, a.drop_last().push(a.last())) =~= seq![a]);
    } else {
        assert(a =~= Seq::<char>::empty());
    }
}

/// `a <= b` on strings: lexicographic order of characters (which is the byte
/// order of their UTF-8 encodings).
pub open spec fn lex_le(a: Seq<char>, b: Seq<char>) -> bool
    decreases a.len(),
{
    if a.len() == 0 {
        true
    } else if b.len() == 0 {
        false
    } else if a[0] != b[0] {
        a[0] < b[0]
    } else {
        lex_le(a.drop_first(), b.drop_first())
    }
}

// ---------------------------------------------------------------------------
// Lemmas
// ---------------------------------------------------------------------------

pub proof fn lemma_split_nonempty(s: Seq<char>, sep: char)
    ensures
        split(s, sep).len() >= 1,
    decreases s.len(),
{
    if s.len() > 0 {
        lemma_split_nonempty(s.drop_last(), sep);
    }
}

// ---------------------------------------------------------------------------
// Executable operations
// ---------------------------------------------------------------------------

/// The characters of `s`.
pub fn chars_of(s: &str) -> (r: Vec<char>)
    ensures
        r@ == s@,
{
    broadcast use vstd::string::group_string_axioms;
    let mut r: Vec<char> = Vec::new();
    for c in it: s.chars()
        invariant
            it.seq() == s@,
            r@ == it.seq().take(it.index() as int),
    {
        r.push(c);
    }
    r
}

/// A string made of the characters `v`.
pub fn string_of(v: &[char]) -> (r: String)
    ensures
        r@ == v@,
{
    let mut r = String::new();
    let mut i: usize = 0;
    while i < v.len()
        invariant
            i <= v.len(),
            r@ == v@.take(i as int),
        decreases v.len() - i,
    {
        r.push(v[i]);
        proof {
            assert(v@.take(i + 1) == v@.take(i as int).push(v@[i as int]));
        }
        i = i + 1;
    }
    proof {
        assert(v@.take(v.len() as int) == v@);
    }
    r
}

/// Whether `c` is whitespace (`char::is_whitespace`).
pub fn is_whitespace(c: char) -> (r: bool)
    ensures
        r == is_ws(c),
{
    c == '\t' || c == '\n' || c == '\u{0B}' || c == '\u{0C}' || c == '\r' || c == ' '
        || c == '\u{85}' || c == '\u{A0}' || c == '\u{1680}' || ('\u{2000}' <= c && c
        <= '\u{200A}') || c == '\u{2028}' || c == '\u{2029}' || c == '\u{202F}' || c
        == '\u{205F}' || c == '\u{3000}'
}

/// Whether `pat` occurs in `s` at position `i`.
pub fn occurs_at_exec(s: &[char], pat: &[char], i: usize) -> (r: bool)
    ensures
        r == occurs_at(s@, pat@, i as int),
{
    if i > s.len() || pat.len() > s.len() - i {
        return false;
    }
    let mut k: usize = 0;
    while k < pat.len()
        invariant
            i + pat.len() <= s.len(),
            k <= pat.len(),
            forall|j: int| 0 <= j < k ==> s@[i + j] == pat@[j],
        decreases pat.len() - k,
    {
        if s[i + k] != pat[k] {
            proof {
                assert(s@.subrange(i as int, i + pat.len())[k as int] != pat@[k as int]);
            }
            return false;
        }
        k = k + 1;
    }
    proof {
        assert(s@.subrange(i as int, i + pat.len()) =~= pat@);
    }
    true
}

/// `str::starts_with`.
pub fn starts_with_exec(s: &[char], pat: &[char]) -> (r: bool)
    ensures
        r == starts_with(s@, pat@),
{
    occurs_at_exec(s, pat, 0)
}

/// `str::contains` with a string pattern.
pub fn contains_exec(s: &[char], pat: &[char]) -> (r: bool)
    ensures
        r == contains(s@, pat@),
{
    let mut i: usize = 0;
    while i < s.len()
        invariant
            i <= s.len(),
            forall|j: int| 0 <= j < i ==> !occurs_at(s@, pat@, j),
        decreases s.len() - i,
    {
        if occurs_at_exec(s, pat, i) {
            return true;
        }
        i = i + 1;
    }
    if occurs_at_exec(s, pat, i) {
        return true;
    }
    proof {
        assert forall|j: int| !occurs_at(s@, pat@, j) by {
            if 0 <= j <= i {
            }
        }
    }
    false
}

/// Whether the character `c` occurs in `s`.
pub fn contains_char(s: &[char], c: char) -> (r: bool)
    ensures
        r == s@.contains(c),
{
    let mut i: usize = 0;
    while i < s.len()
        invariant
            i <= s.len(),
            forall|j: int| 0 <= j < i ==> s@[j] != c,
        decreases s.len() - i,
    {
        if s[i] == c {
            return true;
        }
        i = i + 1;
    }
    false
}

proof fn lemma_replace_step(s: Seq<char>, pat: Seq<char>, rep: Seq<char>, i: int)
    requires
        pat.len() > 0,
        0 <= i < s.len(),
    ensures
        replace_all(s.skip(i), pat, rep) == if occurs_at(s, pat, i) {
            rep + replace_all(s.skip(i + pat.len()), pat, rep)
        } else {
            seq![s[i]] + replace_all(s.skip(i + 1), pat, rep)
        },
{
    let t = s.skip(i);
    assert(t.len() > 0);
    if occurs_at(s, pat, i) {
        assert(t.subrange(0, pat.len() as int) =~= s.subrange(i, i + pat.len()));
        assert(t.skip(pat.len() as int) =~= s.skip(i + pat.len()));
    } else {
        if occurs_at(t, pat, 0) {
            assert(t.subrange(0, pat.len() as int) =~= s.subrange(i, i + pat.len()));
        }
        assert(t.drop_first() =~= s.skip(i + 1));
    }
}

/// `str::replace(pat, rep)` for a non-empty pattern.
pub fn replace_all_exec(s: &[char], pat: &[char], rep: &[char]) -> (r: Vec<char>)
    requires
        pat.len() > 0,
    ensures
        r@ == replace_all(s@, pat@, rep@),
{
    let mut out: Vec<char> = Vec::new();
    let mut i: usize = 0;
    proof {
        assert(s@.skip(0) =~= s@);
    }
    while i < s.len()
        invariant
            pat.len() > 0,
            i <= s.len(),
            out@ + replace_all(s@.skip(i as int), pat@, rep@) == replace_all(s@, pat@, rep@),
        decreases s.len() - i,
    {
        proof {
            lemma_replace_step(s@, pat@, rep@, i as int);
        }
        if occurs_at_exec(s, pat, i) {
            let ghost before = out@;
            let mut k: usize = 0;
            while k < rep.len()
                invariant
                    k <= rep.len(),
                    out@ == before + rep@.take(k as int),
                decreases rep.len() - k,
            {
                out.push(rep[k]);
                proof {
                    assert(rep@.take(k + 1) =~= rep@.take(k as int).push(rep@[k as int]));
                }
                k = k + 1;
            }
            proof {
                assert(rep@.take(rep.len() as int) =~= rep@);
                assert(out@ + replace_all(s@.skip(i + pat.len()), pat@, rep@) =~= before + (rep@
                    + replace_all(s@.skip(i + pat.len()), pat@, rep@)));
            }
            i = i + pat.len();
        } else {
            let ghost before = out@;
            out.push(s[i]);
            proof {
                assert(out@ + replace_all(s@.skip(i + 1), pat@, rep@) =~= before + (seq![s@[i as int]]
                    + replace_all(s@.skip(i + 1), pat@, rep@)));
            }
            i = i + 1;
        }
    }
    proof {
        assert(s@.skip(i as int).len() == 0);
        assert(out@ + replace_all(s@.skip(i as int), pat@, rep@) =~= out@);
    }
    out
}

/// `str::trim`.
pub fn trim_exec(s: &[char]) -> (r: Vec<char>)
    ensures
        r@ == trim(s@),
{
    let mut start: usize = 0;
    proof {
        assert(s@.skip(0) =~= s@);
    }
    while start < s.len() && is_whitespace(s[start])
        invariant
            start <= s.len(),
            trim_start(s@) == trim_start(s@.skip(start as int)),
        decreases s.len() - start,
    {
        proof {
            assert(s@.skip(start as int).drop_first() =~= s@.skip(start + 1));
        }
        start = start + 1;
    }
    let ghost t = s@.skip(start as int);
    assert(trim_start(s@) == t);
    let mut end: usize = s.len();
    proof {
        assert(t.take(t.len() as int) =~= t);
    }
    while end > start && is_whitespace(s[end - 1])
        invariant
            start <= end <= s.len(),
            t == s@.skip(start as int),
            trim_end(t) == trim_end(t.take(end - start)),
        decreases end,
    {
        proof {
            assert(t.take(end - start).drop_last() =~= t.take(end - 1 - start));
        }
        end = end - 1;
    }
    proof {
        assert(trim_end(t) == t.take(end - start));
    }
    let mut out: Vec<char> = Vec::new();
    let mut k: usize = start;
    while k < end
        invariant
            start <= k <= end <= s.len(),
            out@ == s@.subrange(start as int, k as int),
        decreases end - k,
    {
        out.push(s[k]);
        proof {
            assert(s@.subrange(start as int, k + 1) =~= s@.subrange(start as int, k as int).push(
                s@[k as int],
            ));
        }
        k = k + 1;
    }
    proof {
        assert(out@ =~= t.take(end - start));
    }
    out
}

/// `str::trim_start_matches(c)` for a char `c`.
pub fn strip_leading_exec(s: &[char], c: char) -> (r: Vec<char>)
    ensures
        r@ == strip_leading(s@, c),
{
    let mut start: usize = 0;
    proof {
        assert(s@.skip(0) =~= s@);
    }
    while start < s.len() && s[start] == c
        invariant
            start <= s.len(),
            strip_leading(s@, c) == strip_leading(s@.skip(start as int), c),
        decreases s.len() - start,
    {
        proof {
            assert(s@.skip(start as int).drop_first() =~= s@.skip(start + 1));
        }
        start = start + 1;
    }
    let mut out: Vec<char> = Vec::new();
    let mut k: usize = start;
    while k < s.len()
        invariant
            start <= k <= s.len(),
            out@ == s@.subrange(start as int, k as int),
        decreases s.len() - k,
    {
        out.push(s[k]);
        proof {
            assert(s@.subrange(start as int, k + 1) =~= s@.subrange(start as int, k as int).push(
                s@[k as int],
            ));
        }
        k = k + 1;
    }
    proof {
        assert(out@ =~= s@.skip(start as int));
    }
    out
}

/// `str::split(sep)` for a char separator.
pub fn split_exec(s: &[char], sep: char) -> (r: Vec<Vec<char>>)
    ensures
        r.len() == split(s@, sep).len(),
        forall|j: int| 0 <= j < r.len() ==> #[trigger] r[j]@ == split(s@, sep)[j],
{
    let mut pieces: Vec<Vec<char>> = Vec::new();
    let mut cur: Vec<char> = Vec::new();
    let mut i: usize = 0;
    proof {
        assert(s@.take(0) =~= Seq::<char>::empty());
    }
    while i < s.len()
        invariant
            i <= s.len(),
            split(s@.take(i as int), sep).len() == pieces.len() + 1,
            forall|j: int| 0 <= j < pieces.len() ==> #[trigger] pieces[j]@ == split(s@.take(i as int), sep)[j],
            cur@ == split(s@.take(i as int), sep).last(),
        decreases s.len() - i,
    {
        proof {
            assert(s@.take(i + 1).drop_last() =~= s@.take(i as int));
            assert(s@.take(i + 1).last() == s@[i as int]);
        }
        if s[i] == sep {
            let done = cur;
            pieces.push(done);
            cur = Vec::new();
        } else {
            cur.push(s[i]);
        }
        i = i + 1;
    }
    proof {
        assert(s@.take(s.len() as int) =~= s@);
    }
    pieces.push(cur);
    pieces
}

/// `a <= b` on strings.
pub fn lex_le_exec(a: &[char], b: &[char]) -> (r: bool)
    ensures
        r == lex_le(a@, b@),
{
    let mut i: usize = 0;
    proof {
        assert(a@.skip(0) =~= a@);
        assert(b@.skip(0) =~= b@);
    }
    while i < a.len() && i < b.len() && a[i] == b[i]
        invariant
            i <= a.len(),
            i <= b.len(),
            lex_le(a@, b@) == lex_le(a@.skip(i as int), b@.skip(i as int)),
        decreases a.len() - i,
    {
        proof {
            assert(a@.skip(i as int).drop_first() =~= a@.skip(i + 1));
            assert(b@.skip(i as int).drop_first() =~= b@.skip(i + 1));
        }
        i = i + 1;
    }
    if i == a.len() {
        true
    } else if i == b.len() {
        false
    } else {
        a[i] < b[i]
    }
}

} // verus!
