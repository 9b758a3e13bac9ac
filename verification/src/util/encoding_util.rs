//! Integer and text encodings used inside HBAM pages.

use vstd::prelude::*;

verus! {

/// The big-endian value of a byte string, taken modulo 2^64 (bytes before
/// the last eight fall away).
pub open spec fn be_int(s: Seq<u8>) -> nat
    decreases s.len(),
{
    if s.len() == 0 {
        0
    } else {
        (be_int(s.drop_last()) % 0x100_0000_0000_0000) * 256 + s.last() as nat
    }
}

/// The exact big-endian value of a byte string.
pub open spec fn be_value(s: Seq<u8>) -> nat
    decreases s.len(),
{
    if s.len() == 0 {
        0
    } else {
        be_value(s.drop_last()) * 256 + s.last() as nat
    }
}

/// Bounds on the value of a short byte string.
pub proof fn lemma_be_value_bound(s: Seq<u8>)
    requires
        s.len() <= 7,
    ensures
        be_value(s) < 0x100_0000_0000_0000,
        s.len() <= 1 ==> be_value(s) < 0x100,
        s.len() <= 2 ==> be_value(s) < 0x1_0000,
        s.len() <= 3 ==> be_value(s) < 0x100_0000,
        s.len() <= 4 ==> be_value(s) < 0x1_0000_0000,
        s.len() <= 5 ==> be_value(s) < 0x100_0000_0000,
        s.len() <= 6 ==> be_value(s) < 0x1_0000_0000_0000,
    decreases s.len(),
{
    if s.len() > 0 {
        lemma_be_value_bound(s.drop_last());
    }
}

/// For at most eight bytes the value is exact.
pub proof fn lemma_be_int_exact(s: Seq<u8>)
    requires
        s.len() <= 8,
    ensures
        be_int(s) == be_value(s),
    decreases s.len(),
{
    if s.len() > 0 {
        lemma_be_int_exact(s.drop_last());
        lemma_be_value_bound(s.drop_last());
    }
}

/// The value of a two-byte big-endian integer.
pub proof fn lemma_be_int_two(s: Seq<u8>)
    requires
        s.len() == 2,
    ensures
        be_int(s) == s[0] * 256 + s[1],
{
    lemma_be_int_exact(s);
    let d = s.drop_last();
    assert(d.drop_last() =~= Seq::<u8>::empty());
    assert(be_value(d.drop_last()) == 0);
    assert(be_value(d) == be_value(d.drop_last()) * 256 + d.last() as nat);
    assert(d.last() == s[0]);
    assert(be_value(s) == be_value(d) * 256 + s[1] as nat);
}

/// The value of a path integer: one byte stands for itself; two bytes
/// `a b` stand for `0x80 + (a & 0x7F) * 256 + b`; three bytes `_ a b` stand
/// for `0xC000 + a * 256 + b`; any other length stands for 0.
pub open spec fn path_int(s: Seq<u8>) -> nat {
    if s.len() == 1 {
        s[0] as nat
    } else if s.len() == 2 {
        0x80 + (s[0] % 128) as nat * 256 + s[1] as nat
    } else if s.len() == 3 {
        0xC000 + s[1] as nat * 256 + s[2] as nat
    } else {
        0
    }
}

/// Reads a big-endian unsigned integer (modulo 2^64, then cut to the width
/// of `usize`).
pub fn get_int(bytes: &[u8]) -> (r: usize)
    ensures
        r == be_int(bytes@) as usize,
{
    let mut n: u64 = 0;
    let mut i: usize = 0;
    while i < bytes.len()
        invariant
            i <= bytes@.len(),
            n as nat == be_int(bytes@.subrange(0, i as int)),
        decreases bytes.len() - i,
    {
        let ghost prefix = bytes@.subrange(0, i as int);
        assert(bytes@.subrange(0, i as int + 1).drop_last() =~= prefix);
        n = (n % 0x100_0000_0000_0000) * 256 + bytes[i] as u64;
        i = i + 1;
    }
    assert(bytes@.subrange(0, i as int) =~= bytes@);
    n as usize
}

/// Reads a path integer (see `path_int`).
pub fn get_path_int(bytes: &[u8]) -> (r: usize)
    ensures
        r as nat == path_int(bytes@),
{
    if bytes.len() == 1 {
        bytes[0] as usize
    } else if bytes.len() == 2 {
        0x80 + (bytes[0] % 128) as usize * 256 + bytes[1] as usize
    } else if bytes.len() == 3 {
        0xC000 + bytes[1] as usize * 256 + bytes[2] as usize
    } else {
        0
    }
}

/// The text that an encrypted string stands for: each byte is XORed with
/// 0x5A and read as one character (Latin-1).
pub open spec fn fm_decrypted(s: Seq<u8>) -> Seq<char> {
    Seq::new(s.len(), |i: int| (s[i] ^ 0x5Au8) as char)
}

/// Pushes a character onto a string with `String::push`, which vstd gives
/// no specification; trusted, as std documents it, to leave the text
/// followed by `c`.
#[verifier::external_body]
pub(crate) fn push_char(s: &mut String, c: char)
    ensures
        final(s)@ == old(s)@.push(c),
{
    s.push(c)
}

/// Decrypts a FileMaker string (see `fm_decrypted`).
pub fn fm_string_decrypt(bytes: &[u8]) -> (r: String)
    ensures
        r@ == fm_decrypted(bytes@),
{
    let mut res = String::new();
    let mut i: usize = 0;
    while i < bytes.len()
        invariant
            i <= bytes@.len(),
            res@ == fm_decrypted(bytes@).subrange(0, i as int),
        decreases bytes.len() - i,
    {
        let b: u8 = bytes[i] ^ 0x5Au8;
        let c: char = b as char;
        push_char(&mut res, c);
        assert(res@ =~= fm_decrypted(bytes@).subrange(0, i as int + 1));
        i = i + 1;
    }
    assert(res@ =~= fm_decrypted(bytes@));
    res
}

} // verus!
