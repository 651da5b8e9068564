//! The boot counter the FAT32 self-check keeps in `/TEST/BOOT.CNT`: the
//! value read back from its text, and the text of the next value.

use vstd::prelude::*;
use vstd::utf8::{decode_utf8, valid_utf8};
use crate::encoding::{trim, trim_str, utf8_str};
use crate::vfs::procfs::{dec, push_dec};

verus! {

/// An ASCII decimal digit.
pub open spec fn is_digit(c: char) -> bool {
    48 <= c as u32 <= 57
}

/// Every character of `s` is a decimal digit.
pub open spec fn all_digits(s: Seq<char>) -> bool {
    forall|i: int| 0 <= i < s.len() ==> #[trigger] is_digit(s[i])
}

/// The value of the decimal digits `s`.
pub open spec fn digits_value(s: Seq<char>) -> nat
    decreases s.len(),
{
    if s.len() == 0 { 0 } else { digits_value(s.drop_last()) * 10 + (s.last() as u32 - 48) as nat }
}

/// What `u32::from_str` gives for `s`: an optional `+`, then one or more
/// decimal digits whose value fits in 32 bits; None for anything else.
pub open spec fn parse_u32(s: Seq<char>) -> Option<u32> {
    let d = if s.len() > 0 && s[0] == '+' { s.skip(1) } else { s };
    if d.len() > 0 && all_digits(d) && digits_value(d) <= u32::MAX {
        Some(digits_value(d) as u32)
    } else {
        None
    }
}

/// The counter value the text `b` holds: the number its trimmed text
/// parses to, 0 when it is not UTF-8 or does not parse.
pub open spec fn counter_value(b: Seq<u8>) -> u32 {
    if valid_utf8(b) {
        match parse_u32(trim(decode_utf8(b))) {
            Some(v) => v,
            None => 0,
        }
    } else {
        0
    }
}

/// One more, stopping at `u32::MAX`.
pub open spec fn next_count(v: u32) -> u32 {
    if v == u32::MAX { v } else { (v + 1) as u32 }
}

/// A longer run of digits is worth at least as much.
proof fn lemma_digits_value_grows(s: Seq<char>, i: int)
    requires
        0 <= i <= s.len(),
    ensures
        digits_value(s.take(i)) <= digits_value(s),
    decreases s.len() - i,
{
    if i < s.len() {
        lemma_digits_value_grows(s, i + 1);
        assert(s.take(i + 1).drop_last() =~= s.take(i));
    } else {
        assert(s.take(i) =~= s);
    }
}

/// Parse `s` as `u32::from_str` does (see [`parse_u32`]).
pub fn parse_u32_text(s: &str) -> (r: Option<u32>)
    ensures
        r == parse_u32(s@),
{
    let n = s.unicode_len();
    let mut start: usize = 0;
    if n > 0 && s.get_char(0) == '+' {
        start = 1;
    }
    let ghost d = if s@.len() > 0 && s@[0] == '+' { s@.skip(1) } else { s@ };
    assert(d =~= s@.subrange(start as int, n as int));
    if start == n {
        return None;
    }
    let mut i: usize = start;
    let mut acc: u64 = 0;
    assert(d.take(0) =~= Seq::<char>::empty());
    while i < n
        invariant
            n == s@.len(),
            start <= i <= n,
            d == s@.subrange(start as int, n as int),
            d == (if s@.len() > 0 && s@[0] == '+' { s@.skip(1) } else { s@ }),
            acc == digits_value(d.take(i - start)),
            acc <= u32::MAX,
            forall|j: int| 0 <= j < i - start ==> #[trigger] is_digit(d[j]),
        decreases n - i,
    {
        let c = s.get_char(i);
        let u = c as u32;
        assert(d[i - start] == c);
        if u < 48 || u > 57 {
            assert(!is_digit(d[i - start]));
            assert(!all_digits(d));
            return None;
        }
        acc = acc * 10 + (u - 48) as u64;
        assert(d.take(i - start + 1).drop_last() =~= d.take(i - start));
        assert(d.take(i - start + 1).last() == c);
        assert(acc == digits_value(d.take(i - start + 1)));
        if acc > 0xFFFF_FFFF {
            proof { lemma_digits_value_grows(d, i - start + 1); }
            return None;
        }
        i = i + 1;
    }
    assert(d.take(i - start) =~= d);
    Some(acc as u32)
}

/// The boot counter's step: the value the text `read` holds (see
/// [`counter_value`]), the next value (one more, saturating), and that
/// next value's decimal text, which is written back.
pub fn next_boot_count(read: &[u8]) -> (r: (u32, u32, String))
    ensures
        r.0 == counter_value(read@),
        r.1 == next_count(r.0),
        r.2@ == dec(r.1 as nat),
{
    let value = match utf8_str(read) {
        Some(text) => match parse_u32_text(trim_str(text)) {
            Some(v) => v,
            None => 0,
        },
        None => 0,
    };
    let next = if value == u32::MAX { value } else { value + 1 };
    let mut s = String::new();
    push_dec(&mut s, next as u64);
    (value, next, s)
}

} // verus!
