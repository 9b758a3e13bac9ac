//! Reading a decimal number out of a path component.

use vstd::prelude::*;
use vstd::string::StrSliceExecFns;
use crate::util::decimal::{decimal, digit_char};

verus! {

/// An index as an integer.
pub open spec fn index_int(i: usize) -> int {
    i as int
}

pub open spec fn is_digit(c: char) -> bool {
    '0' <= c && c <= '9'
}

/// The value of a digit.
pub open spec fn digit_value(c: char) -> nat {
    (c as int - 48) as nat
}

/// The value of a string of digits, most significant first.
pub open spec fn digits_value(s: Seq<char>) -> nat
    decreases s.len(),
{
    if s.len() == 0 {
        0
    } else {
        digits_value(s.drop_last()) * 10 + digit_value(s.last())
    }
}

pub open spec fn all_digits(s: Seq<char>) -> bool {
    forall|i: int| 0 <= i < s.len() ==> is_digit(#[trigger] s[i])
}

/// What `usize::from_str` gives: an optional `+` followed by at least one
/// digit, whose value fits in a `usize`.
pub open spec fn parse_usize(s: Seq<char>) -> Option<usize> {
    let d = if s.len() > 0 && s[0] == '+' {
        s.drop_first()
    } else {
        s
    };
    if d.len() > 0 && all_digits(d) && digits_value(d) <= usize::MAX {
        Some(digits_value(d) as usize)
    } else {
        None
    }
}

/// A prefix of a string of digits is worth no more than the whole string.
proof fn lemma_digits_prefix(s: Seq<char>, k: int)
    requires
        0 <= k <= s.len(),
        all_digits(s),
    ensures
        digits_value(s.subrange(0, k)) <= digits_value(s),
    decreases s.len() - k,
{
    if k < s.len() {
        lemma_digits_prefix(s, k + 1);
        assert(s.subrange(0, k + 1).drop_last() =~= s.subrange(0, k));
        assert(is_digit(s[k]));
    } else {
        assert(s.subrange(0, k) =~= s);
    }
}

/// Reads a component as `usize::from_str` does.
pub fn read_usize(s: &String) -> (r: Option<usize>)
    ensures
        r == parse_usize(s@),
{
    let t = s.as_str();
    let n = t.unicode_len();
    let mut start: usize = 0;
    if n > 0 && t.get_char(0) == '+' {
        start = 1;
    }
    let ghost d = if s@.len() > 0 && s@[0] == '+' {
        s@.drop_first()
    } else {
        s@
    };
    assert(d =~= s@.subrange(start as int, n as int));
    if start >= n {
        return None;
    }
    let mut v: usize = 0;
    let mut i: usize = start;
    while i < n
        invariant
            start <= i <= n,
            n == s@.len(),
            t@ == s@,
            d == s@.subrange(start as int, n as int),
            d == (if s@.len() > 0 && s@[0] == '+' {
                s@.drop_first()
            } else {
                s@
            }),
            all_digits(d.subrange(0, i - start)),
            v as nat == digits_value(d.subrange(0, i - start)),
        decreases n - i,
    {
        let c = t.get_char(i);
        assert(d[i - start] == c);
        if !('0' <= c && c <= '9') {
            assert(!is_digit(d[i - start]));
            assert(!all_digits(d));
            return None;
        }
        assert('0' as int == 48);
        assert(c as u32 >= 48);
        let dg = ((c as u32) - 48) as usize;
        assert(dg as nat == digit_value(c));
        assert(d.subrange(0, i - start + 1).drop_last() =~= d.subrange(0, i - start));
        let m = match v.checked_mul(10) {
            Some(m) => m,
            None => {
                proof {
                    lemma_overflow_rest(d, i - start + 1);
                }
                return None;
            },
        };
        let x = match m.checked_add(dg) {
            Some(x) => x,
            None => {
                proof {
                    lemma_overflow_rest(d, i - start + 1);
                }
                return None;
            },
        };
        v = x;
        i = i + 1;
    }
    assert(d.subrange(0, i - start) =~= d);
    Some(v)
}

/// Once a prefix of digits is worth more than `usize::MAX`, the whole
/// string does not parse.
proof fn lemma_overflow_rest(d: Seq<char>, k: int)
    requires
        0 < k <= d.len(),
        all_digits(d.subrange(0, k - 1)),
        is_digit(d[k - 1]),
        digits_value(d.subrange(0, k)) > usize::MAX,
    ensures
        !(all_digits(d) && digits_value(d) <= usize::MAX),
{
    if all_digits(d) {
        lemma_digits_prefix(d, k);
    }
}

proof fn lemma_decimal_digits(n: nat)
    ensures
        decimal(n).len() > 0,
        all_digits(decimal(n)),
        digits_value(decimal(n)) == n,
    decreases n,
{
    let c = digit_char(n % 10);
    assert(c as int == 48 + n % 10);
    assert(decimal(n).last() == c);
    assert(digit_value(c) == n % 10);
    if n < 10 {
        assert(decimal(n).drop_last() =~= Seq::<char>::empty());
        assert(digits_value(decimal(n)) == digits_value(decimal(n).drop_last()) * 10 + digit_value(c));
    } else {
        lemma_decimal_digits(n / 10);
        let s = decimal(n / 10);
        assert(decimal(n).drop_last() =~= s);
        assert(digits_value(decimal(n)) == digits_value(s) * 10 + digit_value(c));
        assert((n / 10) * 10 + n % 10 == n);
        assert forall|i: int| 0 <= i < decimal(n).len() implies is_digit(#[trigger] decimal(n)[i]) by {
            if i < s.len() {
                assert(decimal(n)[i] == s[i]);
            }
        }
    }
}

/// A number written in decimal, as the chunk readers write directory
/// names, reads back as itself.
pub proof fn lemma_read_back_decimal(n: nat)
    requires
        n <= usize::MAX,
    ensures
        parse_usize(decimal(n)) == Some(n as usize),
{
    lemma_decimal_digits(n);
    assert(is_digit(decimal(n)[0]));
}

} // verus!
