//! Decimal integers in text: the meaning of `i32::from_str`, `u32::from_str`
//! and of the decimal rendering of an integer (`to_string`).
use vstd::prelude::*;

verus! {

/// An ASCII decimal digit.
pub open spec fn is_digit(c: char) -> bool {
    '0' <= c && c <= '9'
}

/// Every character of `s` is an ASCII decimal digit.
pub open spec fn all_digits(s: Seq<char>) -> bool {
    forall|i: int| 0 <= i < s.len() ==> is_digit(#[trigger] s[i])
}

/// The value of the decimal digits `s` (most significant first).
pub open spec fn digits_value(s: Seq<char>) -> int
    decreases s.len(),
{
    if s.len() == 0 {
        0
    } else {
        digits_value(s.drop_last()) * 10 + (s.last() as int - '0' as int)
    }
}

/// What `str::parse::<i32>` accepts and yields: an optional `+` or `-`, then
/// one or more ASCII digits, with the value in range.
pub open spec fn parse_i32(s: Seq<char>) -> Option<i32> {
    let negative = s.len() > 0 && s[0] == '-';
    let body = if s.len() > 0 && (s[0] == '+' || s[0] == '-') {
        s.drop_first()
    } else {
        s
    };
    let v = if negative {
        -digits_value(body)
    } else {
        digits_value(body)
    };
    if body.len() > 0 && all_digits(body) && i32::MIN <= v <= i32::MAX {
        Some(v as i32)
    } else {
        None
    }
}

/// What `str::parse::<u32>` accepts and yields: an optional `+`, then one or
/// more ASCII digits, with the value in range.
pub open spec fn parse_u32(s: Seq<char>) -> Option<u32> {
    let body = if s.len() > 0 && s[0] == '+' {
        s.drop_first()
    } else {
        s
    };
    if body.len() > 0 && all_digits(body) && digits_value(body) <= u32::MAX {
        Some(digits_value(body) as u32)
    } else {
        None
    }
}

/// The decimal digits of a natural number.
pub open spec fn decimal_nat(n: nat) -> Seq<char>
    decreases n,
{
    if n < 10 {
        seq![(('0' as int) + n) as char]
    } else {
        decimal_nat(n / 10).push((('0' as int) + (n % 10)) as char)
    }
}

/// The decimal rendering of an integer (what `to_string` gives for integers).
pub open spec fn decimal(n: int) -> Seq<char> {
    if n < 0 {
        seq!['-'] + decimal_nat((-n) as nat)
    } else {
        decimal_nat(n as nat)
    }
}

pub proof fn lemma_digits_value_nonneg(s: Seq<char>)
    requires
        all_digits(s),
    ensures
        digits_value(s) >= 0,
    decreases s.len(),
{
    if s.len() > 0 {
        lemma_digits_value_nonneg(s.drop_last());
    }
}

/// Appending digits never makes the value smaller.
pub proof fn lemma_digits_value_prefix(s: Seq<char>, k: int)
    requires
        all_digits(s),
        0 <= k <= s.len(),
    ensures
        digits_value(s.take(k)) <= digits_value(s),
    decreases s.len(),
{
    if k < s.len() {
        assert(s.drop_last().take(k) =~= s.take(k));
        lemma_digits_value_prefix(s.drop_last(), k);
        lemma_digits_value_nonneg(s.drop_last());
    } else {
        assert(s.take(k) =~= s);
    }
}

/// The value of the digits `s[start..]`, when they are all digits and the
/// value is at most `bound`; `None` otherwise.
fn bounded_digits_value(s: &[char], start: usize, bound: i64) -> (r: Option<i64>)
    requires
        start <= s.len(),
        0 <= bound <= 0x1_0000_0000,
    ensures
        match r {
            Some(v) => all_digits(s@.skip(start as int)) && v == digits_value(s@.skip(start as int))
                && 0 <= v <= bound,
            None => !all_digits(s@.skip(start as int)) || digits_value(s@.skip(start as int))
                > bound,
        },
{
    let ghost body = s@.skip(start as int);
    let mut acc: i64 = 0;
    let mut i: usize = start;
    proof {
        assert(body.take(0) =~= Seq::<char>::empty());
    }
    while i < s.len()
        invariant
            start <= i <= s.len(),
            body == s@.skip(start as int),
            0 <= bound <= 0x1_0000_0000,
            all_digits(body.take(i - start)),
            acc == digits_value(body.take(i - start)),
            0 <= acc <= bound,
        decreases s.len() - i,
    {
        let c = s[i];
        proof {
            assert(body.take(i + 1 - start).drop_last() =~= body.take(i - start));
            assert(body.take(i + 1 - start).last() == c);
        }
        if !('0' <= c && c <= '9') {
            proof {
                assert(body[i - start] == c);
            }
            return None;
        }
        let d: i64 = (c as u32 - '0' as u32) as i64;
        acc = acc * 10 + d;
        if acc > bound {
            proof {
                assert(all_digits(body.take(i + 1 - start)));
                if all_digits(body) {
                    lemma_digits_value_prefix(body, i + 1 - start);
                }
            }
            return None;
        }
        i = i + 1;
    }
    proof {
        assert(body.take(i - start) =~= body);
    }
    Some(acc)
}

/// `str::parse::<i32>`: `Some` exactly when the text is an `i32`.
pub fn parse_i32_exec(s: &[char]) -> (r: Option<i32>)
    ensures
        r == parse_i32(s@),
{
    if s.len() == 0 {
        return None;
    }
    let negative = s[0] == '-';
    let start: usize = if s[0] == '+' || s[0] == '-' {
        1
    } else {
        0
    };
    proof {
        if start == 1 {
            assert(s@.skip(1) =~= s@.drop_first());
        } else {
            assert(s@.skip(0) =~= s@);
        }
    }
    if start == s.len() {
        return None;
    }
    match bounded_digits_value(s, start, 0x8000_0000) {
        None => {
            proof {
                if all_digits(s@.skip(start as int)) {
                    lemma_digits_value_nonneg(s@.skip(start as int));
                }
            }
            None
        },
        Some(v) => {
            if negative {
                Some((-v) as i32)
            } else if v <= 0x7fff_ffff {
                Some(v as i32)
            } else {
                None
            }
        },
    }
}

/// `str::parse::<u32>`: `Some` exactly when the text is a `u32`.
pub fn parse_u32_exec(s: &[char]) -> (r: Option<u32>)
    ensures
        r == parse_u32(s@),
{
    let start: usize = if s.len() > 0 && s[0] == '+' {
        1
    } else {
        0
    };
    proof {
        if start == 1 {
            assert(s@.skip(1) =~= s@.drop_first());
        } else {
            assert(s@.skip(0) =~= s@);
        }
    }
    if start == s.len() {
        return None;
    }
    match bounded_digits_value(s, start, 0xffff_ffff) {
        None => None,
        Some(v) => Some(v as u32),
    }
}

/// The decimal digits of `n`.
pub fn decimal_nat_exec(n: u64) -> (r: Vec<char>)
    ensures
        r@ == decimal_nat(n as nat),
    decreases n,
{
    let d: u64 = n % 10;
    let c: char = if d == 0 {
        '0'
    } else if d == 1 {
        '1'
    } else if d == 2 {
        '2'
    } else if d == 3 {
        '3'
    } else if d == 4 {
        '4'
    } else if d == 5 {
        '5'
    } else if d == 6 {
        '6'
    } else if d == 7 {
        '7'
    } else if d == 8 {
        '8'
    } else {
        '9'
    };
    assert(c == (('0' as int) + (n % 10)) as char);
    if n < 10 {
        vec![c]
    } else {
        let mut r = decimal_nat_exec(n / 10);
        r.push(c);
        r
    }
}

/// The decimal rendering of `n`, as `to_string` gives it.
pub fn decimal_exec(n: i64) -> (r: Vec<char>)
    ensures
        r@ == decimal(n as int),
{
    if n < 0 {
        let m: u64 = if n == i64::MIN {
            0x8000_0000_0000_0000
        } else {
            (-n) as u64
        };
        let mut r: Vec<char> = vec!['-'];
        let digits = decimal_nat_exec(m);
        let ghost before = r@;
        let mut k: usize = 0;
        while k < digits.len()
            invariant
                k <= digits.len(),
                r@ == before + digits@.take(k as int),
            decreases digits.len() - k,
        {
            r.push(digits[k]);
            proof {
                assert(digits@.take(k + 1) =~= digits@.take(k as int).push(digits@[k as int]));
            }
            k = k + 1;
        }
        proof {
            assert(digits@.take(digits.len() as int) =~= digits@);
        }
        r
    } else {
        decimal_nat_exec(n as u64)
    }
}

} // verus!
