//! Building the text of messages: appending literal text, numbers in
//! hexadecimal, and byte lists written as Rust's debug format writes them.

use vstd::prelude::*;
use super::encoding_util::push_char;

verus! {

broadcast use vstd::string::axiom_spec_iter;

/// Appends the characters of `s` to `out`.
pub fn push_str(out: &mut String, s: &str)
    ensures
        final(out)@ == old(out)@ + s@,
{
    let ghost start = out@;
    for ch in it: s.chars()
        invariant
            out@ == start + it.seq().take(it.index()),
    {
        proof {
            assert(it.seq().take(it.index() + 1) =~= it.seq().take(it.index()).push(ch));
        }
        push_char(out, ch);
    }
    assert(s@.take(s@.len() as int) =~= s@);
}

/// The hexadecimal digit for `d` (below 16), in lower case.
pub open spec fn hex_digit(d: nat) -> char {
    if d < 10 {
        (48 + d) as char
    } else {
        (87 + d) as char
    }
}

/// `n` in hexadecimal, lower case, without leading zeros (`{:x}`).
pub open spec fn hex_text(n: nat) -> Seq<char>
    decreases n,
{
    if n < 16 {
        seq![hex_digit(n)]
    } else {
        hex_text(n / 16).push(hex_digit(n % 16))
    }
}

/// The bytes of `s` in hexadecimal, separated by a comma and a space.
pub open spec fn hex_list(s: Seq<u8>) -> Seq<char>
    decreases s.len(),
{
    if s.len() == 0 {
        Seq::empty()
    } else if s.len() == 1 {
        hex_text(s[0] as nat)
    } else {
        hex_list(s.drop_last()) + seq![',', ' '] + hex_text(s.last() as nat)
    }
}

/// The value of a hexadecimal digit, `0`-`9` then `a`-`f`.
pub open spec fn hex_digit_value(ch: char) -> int {
    if '0' <= ch <= '9' {
        ch as int - 48
    } else {
        ch as int - 87
    }
}

/// A string of hexadecimal digits read as a number, most significant digit
/// first.
pub open spec fn hex_read(s: Seq<char>) -> int
    decreases s.len(),
{
    if s.len() == 0 {
        0
    } else {
        hex_read(s.drop_last()) * 16 + hex_digit_value(s.last())
    }
}

/// A number written in hexadecimal reads back as itself; its digits are
/// `0`-`9` and `a`-`f`, and only zero starts with `0`.
pub proof fn lemma_hex_reads_back(n: nat)
    ensures
        hex_read(hex_text(n)) == n,
        hex_text(n).len() > 0,
        forall|i: int|
            0 <= i < hex_text(n).len() ==> ('0' <= #[trigger] hex_text(n)[i] <= '9') || ('a' <= hex_text(n)[i]
                <= 'f'),
        hex_text(n)[0] == '0' ==> n == 0,
    decreases n,
{
    let d = n % 16;
    let c = hex_digit(d);
    assert(hex_digit_value(c) == d);
    if n < 16 {
        assert(hex_text(n).drop_last() =~= Seq::<char>::empty());
        assert(hex_read(hex_text(n)) == hex_read(hex_text(n).drop_last()) * 16 + hex_digit_value(c));
    } else {
        lemma_hex_reads_back(n / 16);
        let s = hex_text(n / 16);
        assert(hex_text(n).drop_last() =~= s);
        assert(hex_read(hex_text(n)) == hex_read(s) * 16 + hex_digit_value(c));
        assert((n / 16) * 16 + n % 16 == n);
        assert forall|i: int| 0 <= i < hex_text(n).len() implies ('0' <= #[trigger] hex_text(n)[i] <= '9') || (
        'a' <= hex_text(n)[i] <= 'f') by {
            if i < s.len() {
                assert(hex_text(n)[i] == s[i]);
            }
        }
        assert(hex_text(n)[0] == s[0]);
    }
}

/// Appends `n` in hexadecimal (see `hex_text`).
pub fn push_hex(out: &mut String, n: u64)
    ensures
        final(out)@ == old(out)@ + hex_text(n as nat),
    decreases n,
{
    if n >= 16 {
        push_hex(out, n / 16);
    }
    let d = n % 16;
    let c: char = if d < 10 {
        ((48 + d) as u8) as char
    } else {
        ((87 + d) as u8) as char
    };
    push_char(out, c);
    proof {
        if n >= 16 {
            assert(hex_text(n as nat) == hex_text((n / 16) as nat).push(hex_digit((n % 16) as nat)));
        }
    }
}

/// Appends the bytes of `s` as the debug format writes a byte slice in
/// hexadecimal (`{:x?}`): in square brackets, separated by ", ".
pub fn push_hex_list(out: &mut String, s: &[u8])
    ensures
        final(out)@ == old(out)@ + seq!['['] + hex_list(s@) + seq![']'],
{
    let ghost start = out@;
    push_char(out, '[');
    let mut i: usize = 0;
    while i < s.len()
        invariant
            i <= s@.len(),
            out@ == start + seq!['['] + hex_list(s@.take(i as int)),
        decreases s.len() - i,
    {
        let ghost before = out@;
        if i > 0 {
            push_char(out, ',');
            push_char(out, ' ');
        }
        push_hex(out, s[i] as u64);
        proof {
            let t = s@.take(i as int + 1);
            assert(t.drop_last() =~= s@.take(i as int));
            if i == 0 {
                assert(hex_list(s@.take(0)) =~= Seq::<char>::empty());
                assert(out@ =~= start + seq!['['] + hex_list(t));
            } else {
                assert(out@ =~= start + seq!['['] + hex_list(t));
            }
        }
        i = i + 1;
    }
    assert(s@.take(s@.len() as int) =~= s@);
    push_char(out, ']');
}

} // verus!
