//! Byte and text decoding shared by the image and package parsers:
//! UTF-8, Unicode whitespace trimming and little-endian integers.

use vstd::prelude::*;
use vstd::utf8::{decode_utf8, valid_utf8};

verus! {

/// `core::str::from_utf8`: the bytes as a string slice. std documents that
/// it fails exactly when the bytes are not valid UTF-8; on success the
/// slice's characters are the decoding of the bytes.
#[verifier::external_body]
pub fn utf8_str(bytes: &[u8]) -> (r: Option<&str>)
    ensures
        r is Some <==> valid_utf8(bytes@),
        r matches Some(s) ==> s@ == decode_utf8(bytes@),
{
    match core::str::from_utf8(bytes) {
        Ok(s) => Some(s),
        Err(_) => None,
    }
}

/// Unicode `White_Space` (what `char::is_whitespace` tests).
pub open spec fn is_ws(c: char) -> bool {
    let u = c as u32;
    ||| 0x9 <= u <= 0xD
    ||| u == 0x20
    ||| u == 0x85
    ||| u == 0xA0
    ||| u == 0x1680
    ||| 0x2000 <= u <= 0x200A
    ||| u == 0x2028
    ||| u == 0x2029
    ||| u == 0x202F
    ||| u == 0x205F
    ||| u == 0x3000
}

/// `s` without its leading whitespace.
pub open spec fn trim_start(s: Seq<char>) -> Seq<char>
    decreases s.len(),
{
    if s.len() > 0 && is_ws(s[0]) {
        trim_start(s.skip(1))
    } else {
        s
    }
}

/// `s` without its trailing whitespace.
pub open spec fn trim_end(s: Seq<char>) -> Seq<char>
    decreases s.len(),
{
    if s.len() > 0 && is_ws(s.last()) {
        trim_end(s.drop_last())
    } else {
        s
    }
}

/// `s` without leading and trailing whitespace (what `str::trim` gives).
pub open spec fn trim(s: Seq<char>) -> Seq<char> {
    trim_end(trim_start(s))
}

/// Is `c` whitespace (Unicode `White_Space`)?
pub fn is_whitespace(c: char) -> (r: bool)
    ensures
        r == is_ws(c),
{
    let u = c as u32;
    (0x9 <= u && u <= 0xD) || u == 0x20 || u == 0x85 || u == 0xA0 || u == 0x1680
        || (0x2000 <= u && u <= 0x200A) || u == 0x2028 || u == 0x2029 || u == 0x202F
        || u == 0x205F || u == 0x3000
}

/// `s` without leading and trailing whitespace.
pub fn trim_str(s: &str) -> (r: &str)
    ensures
        r@ == trim(s@),
{
    let n = s.unicode_len();
    let mut a: usize = 0;
    assert(s@.skip(0) =~= s@);
    while a < n && is_whitespace(s.get_char(a))
        invariant
            n == s@.len(),
            a <= n,
            trim_start(s@) == trim_start(s@.skip(a as int)),
        decreases n - a,
    {
        assert(s@.skip(a as int).skip(1) =~= s@.skip(a + 1));
        assert(s@.skip(a as int)[0] == s@[a as int]);
        a = a + 1;
    }
    proof {
        let t = s@.skip(a as int);
        if a < n {
            assert(t[0] == s@[a as int]);
        } else {
            assert(t.len() == 0);
        }
        assert(trim_start(s@) == t);
    }
    let mut b: usize = n;
    while b > a && is_whitespace(s.get_char(b - 1))
        invariant
            n == s@.len(),
            a <= b <= n,
            trim(s@) == trim_end(s@.subrange(a as int, b as int)),
        decreases b - a,
    {
        let ghost t = s@.subrange(a as int, b as int);
        assert(t.last() == s@[b - 1]);
        assert(t.drop_last() =~= s@.subrange(a as int, b - 1));
        b = b - 1;
    }
    proof {
        let t = s@.subrange(a as int, b as int);
        if b > a {
            assert(t.last() == s@[b - 1]);
        }
        assert(trim_end(t) == t);
    }
    s.substring_char(a, b)
}

/// `s` without the copies of `c` it starts with.
pub open spec fn trim_start_char(s: Seq<char>, c: char) -> Seq<char>
    decreases s.len(),
{
    if s.len() > 0 && s[0] == c {
        trim_start_char(s.skip(1), c)
    } else {
        s
    }
}

/// `s` without the copies of `c` it ends with.
pub open spec fn trim_end_char(s: Seq<char>, c: char) -> Seq<char>
    decreases s.len(),
{
    if s.len() > 0 && s.last() == c {
        trim_end_char(s.drop_last(), c)
    } else {
        s
    }
}

/// The position of the first `c` in `s`.
pub open spec fn find_char_spec(s: Seq<char>, c: char) -> Option<int>
    decreases s.len(),
{
    if s.len() == 0 {
        None
    } else {
        match find_char_spec(s.drop_last(), c) {
            Some(i) => Some(i),
            None => if s.last() == c { Some(s.len() - 1) } else { None },
        }
    }
}

/// Do `a` and `b` hold the same characters?
pub fn str_eq(a: &str, b: &str) -> (r: bool)
    ensures
        r == (a@ == b@),
{
    let n = a.unicode_len();
    if n != b.unicode_len() {
        return false;
    }
    let mut i: usize = 0;
    while i < n
        invariant
            n == a@.len(),
            n == b@.len(),
            i <= n,
            forall|k: int| 0 <= k < i ==> a@[k] == b@[k],
        decreases n - i,
    {
        if a.get_char(i) != b.get_char(i) {
            return false;
        }
        i = i + 1;
    }
    assert(a@ =~= b@);
    true
}

/// The position of the first `c` in `s`.
pub fn find_char(s: &str, c: char) -> (r: Option<usize>)
    ensures
        r matches Some(i) ==> i < s@.len() && s@[i as int] == c,
        match r {
            Some(i) => find_char_spec(s@, c) == Some(i as int),
            None => find_char_spec(s@, c) is None,
        },
{
    let n = s.unicode_len();
    let mut i: usize = 0;
    assert(s@.take(0) =~= Seq::<char>::empty());
    while i < n
        invariant
            n == s@.len(),
            i <= n,
            find_char_spec(s@.take(i as int), c) is None,
        decreases n - i,
    {
        assert(s@.take(i + 1).drop_last() =~= s@.take(i as int));
        assert(s@.take(i + 1).last() == s@[i as int]);
        if s.get_char(i) == c {
            assert(find_char_spec(s@.take(i + 1), c) == Some(i as int));
            proof { lemma_find_char_prefix(s@, c, i + 1); }
            return Some(i);
        }
        i = i + 1;
    }
    assert(s@.take(n as int) =~= s@);
    None
}

/// Once a prefix has a `c`, the whole string has the same first one.
proof fn lemma_find_char_prefix(s: Seq<char>, c: char, j: int)
    requires
        0 <= j <= s.len(),
        find_char_spec(s.take(j), c) is Some,
    ensures
        find_char_spec(s, c) == find_char_spec(s.take(j), c),
    decreases s.len() - j,
{
    if j == s.len() {
        assert(s.take(j) =~= s);
    } else {
        assert(s.take(j + 1).drop_last() =~= s.take(j));
        lemma_find_char_prefix(s, c, j + 1);
    }
}

/// `s` without the copies of `c` at either end (what `str::trim_matches`
/// with one character gives).
pub fn trim_char<'a>(s: &'a str, c: char) -> (r: &'a str)
    ensures
        r@ == trim_end_char(trim_start_char(s@, c), c),
{
    let n = s.unicode_len();
    let mut a: usize = 0;
    assert(s@.skip(0) =~= s@);
    while a < n && s.get_char(a) == c
        invariant
            n == s@.len(),
            a <= n,
            trim_start_char(s@, c) == trim_start_char(s@.skip(a as int), c),
        decreases n - a,
    {
        assert(s@.skip(a as int).skip(1) =~= s@.skip(a + 1));
        assert(s@.skip(a as int)[0] == s@[a as int]);
        a = a + 1;
    }
    proof {
        let t = s@.skip(a as int);
        if a < n {
            assert(t[0] == s@[a as int]);
        }
        assert(trim_start_char(s@, c) == t);
        assert(t =~= s@.subrange(a as int, n as int));
    }
    let b = trim_end_from(s, a, c);
    s.substring_char(a, b)
}

/// The end of `s[a..]` once the copies of `c` it ends with are dropped.
pub fn trim_end_from(s: &str, a: usize, c: char) -> (b: usize)
    requires
        a <= s@.len(),
    ensures
        a <= b <= s@.len(),
        s@.subrange(a as int, b as int) == trim_end_char(s@.subrange(a as int, s@.len() as int), c),
{
    let n = s.unicode_len();
    let mut b: usize = n;
    while b > a && s.get_char(b - 1) == c
        invariant
            n == s@.len(),
            a <= b <= n,
            trim_end_char(s@.subrange(a as int, n as int), c) == trim_end_char(s@.subrange(a as int, b as int), c),
        decreases b - a,
    {
        let ghost t = s@.subrange(a as int, b as int);
        assert(t.last() == s@[b - 1]);
        assert(t.drop_last() =~= s@.subrange(a as int, b - 1));
        b = b - 1;
    }
    proof {
        let t = s@.subrange(a as int, b as int);
        if b > a {
            assert(t.last() == s@[b - 1]);
        }
    }
    b
}

/// The little-endian `u16` at `o`.
pub open spec fn le16(d: Seq<u8>, o: int) -> int {
    d[o] + d[o + 1] * 256
}

/// The little-endian `u32` at `o`.
pub open spec fn le32(d: Seq<u8>, o: int) -> int {
    d[o] + d[o + 1] * 256 + d[o + 2] * 65536 + d[o + 3] * 16777216
}

/// The little-endian `u64` at `o`.
pub open spec fn le64(d: Seq<u8>, o: int) -> int {
    le32(d, o) + le32(d, o + 4) * 4294967296
}

/// The little-endian `u16` at `o`.
pub fn read_le16(data: &[u8], o: usize) -> (r: u16)
    requires
        o + 2 <= data@.len(),
    ensures
        r == le16(data@, o as int),
{
    data[o] as u16 + data[o + 1] as u16 * 256
}

/// Store `v` little-endian at `o`, leaving every other byte alone.
pub fn write_le16(buf: &mut [u8], o: usize, v: u16)
    requires
        o + 2 <= old(buf)@.len(),
    ensures
        final(buf)@.len() == old(buf)@.len(),
        le16(final(buf)@, o as int) == v,
        final(buf)@[o as int] == v % 256,
        final(buf)@[o + 1] == v / 256,
        forall|j: int| 0 <= j < old(buf)@.len() && !(o <= j < o + 2) ==> final(buf)@[j] == old(buf)@[j],
{
    let b0 = (v % 256) as u8;
    let b1 = (v / 256) as u8;
    buf[o] = b0;
    buf[o + 1] = b1;
}

/// Store `v` little-endian at `o`, leaving every other byte alone.
pub fn write_le32(buf: &mut [u8], o: usize, v: u32)
    requires
        o + 4 <= old(buf)@.len(),
    ensures
        final(buf)@.len() == old(buf)@.len(),
        le32(final(buf)@, o as int) == v,
        final(buf)@[o as int] == v % 256,
        final(buf)@[o + 1] == (v / 256) % 256,
        final(buf)@[o + 2] == (v / 65536) % 256,
        final(buf)@[o + 3] == v / 16777216,
        forall|j: int| 0 <= j < old(buf)@.len() && !(o <= j < o + 4) ==> final(buf)@[j] == old(buf)@[j],
{
    let b0 = (v % 256) as u8;
    let b1 = ((v / 256) % 256) as u8;
    let b2 = ((v / 65536) % 256) as u8;
    let b3 = (v / 16777216) as u8;
    buf[o] = b0;
    buf[o + 1] = b1;
    buf[o + 2] = b2;
    buf[o + 3] = b3;
    proof { lemma_le32_bytes(v); }
}

/// A `u32` is the sum of its little-endian bytes.
pub proof fn lemma_le32_bytes(v: u32)
    ensures
        v == v % 256 + ((v / 256) % 256) * 256 + ((v / 65536) % 256) * 65536 + (v / 16777216) * 16777216,
        v / 16777216 < 256,
{
    assert(v == v % 256 + ((v / 256) % 256) * 256 + ((v / 65536) % 256) * 65536 + (v / 16777216) * 16777216)
        by (nonlinear_arith);
    assert(v / 16777216 < 256) by (nonlinear_arith);
}

/// The little-endian `u32` at `o`.
pub fn read_le32(data: &[u8], o: usize) -> (r: u32)
    requires
        o + 4 <= data@.len(),
    ensures
        r == le32(data@, o as int),
{
    data[o] as u32 + data[o + 1] as u32 * 256 + data[o + 2] as u32 * 65536 + data[o + 3] as u32 * 16777216
}

/// The little-endian `u64` at `o`.
pub fn read_le64(data: &[u8], o: usize) -> (r: u64)
    requires
        o + 8 <= data@.len(),
    ensures
        r == le64(data@, o as int),
{
    let _n = data.len();
    let lo = read_le32(data, o) as u64;
    let hi = read_le32(data, o + 4) as u64;
    lo + hi * 4294967296
}

/// `String::push`: appends one character (std documents exactly that).
#[verifier::external_body]
pub fn push_char(s: &mut String, c: char)
    ensures
        final(s)@ == old(s)@.push(c),
{
    s.push(c)
}

/// A valid UTF-8 byte string decodes to at most as many characters as it
/// has bytes.
pub proof fn lemma_decode_len(b: Seq<u8>)
    requires
        valid_utf8(b),
    ensures
        decode_utf8(b).len() <= b.len(),
    decreases b.len(),
{
    if b.len() > 0 {
        let n = vstd::utf8::length_of_first_scalar(b);
        assert(1 <= n <= b.len());
        assert(vstd::utf8::pop_first_scalar(b).len() == b.len() - n);
        lemma_decode_len(vstd::utf8::pop_first_scalar(b));
    }
}

} // verus!
