//! UTF-8 and UTF-16 measurement of character sequences.
//!
//! Text is held as a sequence of `char`s; byte offsets (UTF-8) and UTF-16 code
//! unit offsets are derived from it. Every function here is a function of the
//! characters alone.
use vstd::prelude::*;

verus! {

/// The number of bytes `c` occupies in UTF-8 (`char::len_utf8`).
pub open spec fn utf8_width(c: char) -> nat {
    if (c as u32) < 0x80 {
        1
    } else if (c as u32) < 0x800 {
        2
    } else if (c as u32) < 0x10000 {
        3
    } else {
        4
    }
}

/// The number of UTF-16 code units `c` occupies (`char::len_utf16`).
pub open spec fn utf16_width(c: char) -> nat {
    if (c as u32) < 0x10000 {
        1
    } else {
        2
    }
}

/// The UTF-8 byte length of a character sequence.
pub open spec fn utf8_len(s: Seq<char>) -> nat
    decreases s.len(),
{
    if s.len() == 0 {
        0
    } else {
        utf8_width(s[0]) + utf8_len(s.drop_first())
    }
}

/// The UTF-16 length of a character sequence.
pub open spec fn utf16_len(s: Seq<char>) -> nat
    decreases s.len(),
{
    if s.len() == 0 {
        0
    } else {
        utf16_width(s[0]) + utf16_len(s.drop_first())
    }
}

/// The byte offset at which character `k` starts.
pub open spec fn byte_offset(s: Seq<char>, k: int) -> nat {
    utf8_len(s.take(k))
}

/// The UTF-16 offset at which character `k` starts.
pub open spec fn utf16_offset(s: Seq<char>, k: int) -> nat {
    utf16_len(s.take(k))
}

/// The index of the last character boundary at or before byte offset `b`
/// (the boundary `str::is_char_boundary` finds when stepping back from `b`,
/// after clamping `b` to the text's length).
pub open spec fn char_index_at_byte(s: Seq<char>, b: int) -> nat
    decreases s.len(),
{
    if s.len() == 0 || b < utf8_width(s[0]) {
        0
    } else {
        1 + char_index_at_byte(s.drop_first(), b - utf8_width(s[0]))
    }
}

/// The number of characters consumed while fewer than `u` UTF-16 units have been counted.
pub open spec fn char_index_at_utf16(s: Seq<char>, u: int) -> nat
    decreases s.len(),
{
    if s.len() == 0 || u <= 0 {
        0
    } else {
        1 + char_index_at_utf16(s.drop_first(), u - utf16_width(s[0]))
    }
}

/// The UTF-16 units of the characters consumed while fewer than `b` bytes have been counted.
pub open spec fn utf16_at_byte(s: Seq<char>, b: int) -> nat
    decreases s.len(),
{
    if s.len() == 0 || b <= 0 {
        0
    } else {
        utf16_width(s[0]) + utf16_at_byte(s.drop_first(), b - utf8_width(s[0]))
    }
}

/// A text whose byte length is representable.
pub open spec fn fits(s: Seq<char>) -> bool {
    utf8_len(s) <= usize::MAX
}

pub proof fn lemma_utf8_len_concat(a: Seq<char>, b: Seq<char>)
    ensures
        utf8_len(a + b) == utf8_len(a) + utf8_len(b),
    decreases a.len(),
{
    if a.len() > 0 {
        assert((a + b).drop_first() =~= a.drop_first() + b);
        lemma_utf8_len_concat(a.drop_first(), b);
    } else {
        assert(a + b =~= b);
    }
}

pub proof fn lemma_utf16_len_concat(a: Seq<char>, b: Seq<char>)
    ensures
        utf16_len(a + b) == utf16_len(a) + utf16_len(b),
    decreases a.len(),
{
    if a.len() > 0 {
        assert((a + b).drop_first() =~= a.drop_first() + b);
        lemma_utf16_len_concat(a.drop_first(), b);
    } else {
        assert(a + b =~= b);
    }
}

pub proof fn lemma_utf16_le_utf8(s: Seq<char>)
    ensures
        utf16_len(s) <= utf8_len(s),
    decreases s.len(),
{
    if s.len() > 0 {
        lemma_utf16_le_utf8(s.drop_first());
    }
}

pub proof fn lemma_single(c: char)
    ensures
        utf8_len(seq![c]) == utf8_width(c),
        utf16_len(seq![c]) == utf16_width(c),
{
    assert(seq![c].drop_first() =~= Seq::<char>::empty());
    reveal_with_fuel(utf8_len, 2);
    reveal_with_fuel(utf16_len, 2);
}

/// Advancing over character `i` adds its width.
pub proof fn lemma_offset_step(s: Seq<char>, i: int)
    requires
        0 <= i < s.len(),
    ensures
        byte_offset(s, i + 1) == byte_offset(s, i) + utf8_width(s[i]),
        utf16_offset(s, i + 1) == utf16_offset(s, i) + utf16_width(s[i]),
{
    assert(s.take(i + 1) =~= s.take(i) + seq![s[i]]);
    lemma_utf8_len_concat(s.take(i), seq![s[i]]);
    lemma_utf16_len_concat(s.take(i), seq![s[i]]);
    lemma_single(s[i]);
}

/// Offsets never exceed the length of the whole text.
pub proof fn lemma_offset_bounded(s: Seq<char>, k: int)
    requires
        0 <= k <= s.len(),
    ensures
        byte_offset(s, k) <= utf8_len(s),
        utf16_offset(s, k) <= utf16_len(s),
        utf16_offset(s, k) <= byte_offset(s, k),
        byte_offset(s, s.len() as int) == utf8_len(s),
{
    assert(s =~= s.take(k) + s.skip(k));
    lemma_utf8_len_concat(s.take(k), s.skip(k));
    lemma_utf16_len_concat(s.take(k), s.skip(k));
    lemma_utf16_le_utf8(s.take(k));
    assert(s.take(s.len() as int) =~= s);
}

/// Offsets grow strictly with the character index.
pub proof fn lemma_offset_monotone(s: Seq<char>, j: int, k: int)
    requires
        0 <= j <= k <= s.len(),
    ensures
        byte_offset(s, j) <= byte_offset(s, k),
        j < k ==> byte_offset(s, j) < byte_offset(s, k),
        utf16_offset(s, j) <= utf16_offset(s, k),
    decreases k - j,
{
    if j < k {
        lemma_offset_step(s, k - 1);
        lemma_offset_monotone(s, j, k - 1);
    }
}

/// The byte offset of character `k` maps back to `k`.
pub proof fn lemma_char_index_of_offset(s: Seq<char>, k: int)
    requires
        0 <= k <= s.len(),
    ensures
        char_index_at_byte(s, byte_offset(s, k) as int) == k,
        char_index_at_utf16(s, utf16_offset(s, k) as int) == k,
        utf16_at_byte(s, byte_offset(s, k) as int) == utf16_offset(s, k),
    decreases k,
{
    if k > 0 {
        assert(s.take(k).drop_first() =~= s.drop_first().take(k - 1));
        lemma_char_index_of_offset(s.drop_first(), k - 1);
    } else {
        assert(s.take(0) =~= Seq::<char>::empty());
    }
}

/// The boundary found for any byte offset lies within the text and not after the offset.
pub proof fn lemma_char_index_at_byte_bounds(s: Seq<char>, b: int)
    requires
        b >= 0,
    ensures
        char_index_at_byte(s, b) <= s.len(),
        byte_offset(s, char_index_at_byte(s, b) as int) <= b,
    decreases s.len(),
{
    if s.len() == 0 || b < utf8_width(s[0]) {
        assert(s.take(0) =~= Seq::<char>::empty());
    } else {
        let k = char_index_at_byte(s.drop_first(), b - utf8_width(s[0]));
        lemma_char_index_at_byte_bounds(s.drop_first(), b - utf8_width(s[0]));
        assert(s.take(k as int + 1).drop_first() =~= s.drop_first().take(k as int));
    }
}

pub proof fn lemma_char_index_at_utf16_bounds(s: Seq<char>, u: int)
    ensures
        char_index_at_utf16(s, u) <= s.len(),
    decreases s.len(),
{
    if s.len() > 0 && u > 0 {
        lemma_char_index_at_utf16_bounds(s.drop_first(), u - utf16_width(s[0]));
    }
}

pub proof fn lemma_utf16_at_byte_bounded(s: Seq<char>, b: int)
    ensures
        utf16_at_byte(s, b) <= utf16_len(s),
    decreases s.len(),
{
    if s.len() > 0 && b > 0 {
        lemma_utf16_at_byte_bounded(s.drop_first(), b - utf8_width(s[0]));
    }
}

/// `char::len_utf8`.
pub fn char_utf8_width(c: char) -> (w: usize)
    ensures
        w == utf8_width(c),
        1 <= w <= 4,
{
    let v = c as u32;
    if v < 0x80 {
        1
    } else if v < 0x800 {
        2
    } else if v < 0x10000 {
        3
    } else {
        4
    }
}

/// `char::len_utf16`.
pub fn char_utf16_width(c: char) -> (w: usize)
    ensures
        w == utf16_width(c),
        1 <= w <= 2,
{
    if (c as u32) < 0x10000 {
        1
    } else {
        2
    }
}

/// The byte offset of character `k`.
pub fn byte_offset_of(s: &[char], k: usize) -> (b: usize)
    requires
        k <= s@.len(),
        fits(s@),
    ensures
        b == byte_offset(s@, k as int),
{
    let mut i: usize = 0;
    let mut acc: usize = 0;
    while i < k
        invariant
            i <= k <= s@.len(),
            fits(s@),
            acc == byte_offset(s@, i as int),
        decreases k - i,
    {
        proof {
            lemma_offset_step(s@, i as int);
            lemma_offset_bounded(s@, i as int + 1);
        }
        acc = acc + char_utf8_width(s[i]);
        i = i + 1;
    }
    acc
}

/// The UTF-8 byte length of the text.
pub fn byte_len(s: &[char]) -> (b: usize)
    requires
        fits(s@),
    ensures
        b == utf8_len(s@),
{
    proof {
        lemma_offset_bounded(s@, s@.len() as int);
    }
    byte_offset_of(s, s.len())
}

/// The UTF-16 offset of character `k`.
pub fn utf16_offset_of(s: &[char], k: usize) -> (u: usize)
    requires
        k <= s@.len(),
        fits(s@),
    ensures
        u == utf16_offset(s@, k as int),
{
    let mut i: usize = 0;
    let mut acc: usize = 0;
    while i < k
        invariant
            i <= k <= s@.len(),
            fits(s@),
            acc == utf16_offset(s@, i as int),
        decreases k - i,
    {
        proof {
            lemma_offset_step(s@, i as int);
            lemma_offset_bounded(s@, i as int + 1);
        }
        acc = acc + char_utf16_width(s[i]);
        i = i + 1;
    }
    acc
}

/// The last character boundary at or before byte offset `b`, as a character index.
pub fn char_index_for_byte(s: &[char], b: usize) -> (k: usize)
    ensures
        k == char_index_at_byte(s@, b as int),
        k <= s@.len(),
{
    let mut i: usize = 0;
    let mut rest: usize = b;
    proof {
        assert(s@.skip(0) =~= s@);
    }
    while i < s.len() && char_utf8_width(s[i]) <= rest
        invariant
            i <= s@.len(),
            char_index_at_byte(s@, b as int) == i + char_index_at_byte(s@.skip(i as int), rest as int),
        decreases s@.len() - i,
    {
        let w = char_utf8_width(s[i]);
        proof {
            assert(s@.skip(i as int).drop_first() =~= s@.skip(i as int + 1));
        }
        rest = rest - w;
        i = i + 1;
    }
    proof {
        lemma_char_index_at_byte_bounds(s@, b as int);
    }
    i
}

/// The character index reached after counting `u` UTF-16 units.
pub fn char_index_for_utf16(s: &[char], u: usize) -> (k: usize)
    ensures
        k == char_index_at_utf16(s@, u as int),
        k <= s@.len(),
{
    let mut i: usize = 0;
    let mut rest: usize = u;
    proof {
        assert(s@.skip(0) =~= s@);
    }
    while i < s.len() && rest > 0
        invariant
            i <= s@.len(),
            char_index_at_utf16(s@, u as int) == i + char_index_at_utf16(s@.skip(i as int), rest as int),
        decreases s@.len() - i,
    {
        let w = char_utf16_width(s[i]);
        proof {
            assert(s@.skip(i as int).drop_first() =~= s@.skip(i as int + 1));
        }
        if w <= rest {
            rest = rest - w;
        } else {
            proof {
                assert(char_index_at_utf16(s@.skip(i as int + 1), rest as int - w as int) == 0);
            }
            rest = 0;
        }
        i = i + 1;
    }
    proof {
        lemma_char_index_at_utf16_bounds(s@, u as int);
    }
    i
}

/// The UTF-16 offset of the first character boundary at or after byte offset `b`.
pub fn utf16_for_byte(s: &[char], b: usize) -> (u: usize)
    requires
        fits(s@),
    ensures
        u == utf16_at_byte(s@, b as int),
{
    let mut i: usize = 0;
    let mut rest: usize = b;
    let mut acc: usize = 0;
    proof {
        assert(s@.skip(0) =~= s@);
        assert(s@.take(0) =~= Seq::<char>::empty());
    }
    while i < s.len() && rest > 0
        invariant
            i <= s@.len(),
            fits(s@),
            acc == utf16_offset(s@, i as int),
            utf16_at_byte(s@, b as int) == acc + utf16_at_byte(s@.skip(i as int), rest as int),
        decreases s@.len() - i,
    {
        let w8 = char_utf8_width(s[i]);
        let w16 = char_utf16_width(s[i]);
        proof {
            assert(s@.skip(i as int).drop_first() =~= s@.skip(i as int + 1));
            lemma_offset_step(s@, i as int);
            lemma_offset_bounded(s@, i as int + 1);
            lemma_utf16_le_utf8(s@);
            if w8 > rest {
                assert(utf16_at_byte(s@.skip(i as int + 1), rest as int - w8 as int) == 0);
            }
        }
        if w8 <= rest {
            rest = rest - w8;
        } else {
            rest = 0;
        }
        acc = acc + w16;
        i = i + 1;
    }
    acc
}

/// The UTF-8 byte length of any character sequence, without overflow.
pub fn utf8_len_wide(s: &[char]) -> (n: u128)
    ensures
        n == utf8_len(s@),
        n <= 4 * s@.len(),
        n <= 0x40000000000000000,
{
    let mut i: usize = 0;
    let mut acc: u128 = 0;
    let len = s.len();
    proof {
        assert(s@.take(0) =~= Seq::<char>::empty());
    }
    while i < s.len()
        invariant
            i <= s@.len(),
            acc == byte_offset(s@, i as int),
            acc <= 4 * i,
        decreases s@.len() - i,
    {
        proof {
            lemma_offset_step(s@, i as int);
        }
        acc = acc + char_utf8_width(s[i]) as u128;
        i = i + 1;
    }
    proof {
        lemma_offset_bounded(s@, s@.len() as int);
        assert(usize::MAX as int <= 0xffff_ffff_ffff_ffff);
    }
    acc
}

/// Every byte offset at or beyond the end maps to the end.
pub proof fn lemma_char_index_at_end(s: Seq<char>, b: int)
    requires
        b >= utf8_len(s),
    ensures
        char_index_at_byte(s, b) == s.len(),
    decreases s.len(),
{
    if s.len() > 0 {
        lemma_char_index_at_end(s.drop_first(), b - utf8_width(s[0]));
    }
}

/// The characters of a string slice.
pub fn chars_of(s: &str) -> (v: Vec<char>)
    ensures
        v@ == s@,
{
    let mut v: Vec<char> = Vec::new();
    let n = s.unicode_len();
    let mut i: usize = 0;
    while i < n
        invariant
            n == s@.len(),
            i <= n,
            v@ == s@.take(i as int),
        decreases n - i,
    {
        v.push(s.get_char(i));
        proof {
            assert(s@.take(i as int + 1) =~= s@.take(i as int).push(s@[i as int]));
        }
        i = i + 1;
    }
    proof {
        assert(s@.take(n as int) =~= s@);
    }
    v
}

/// Appends the characters of `text`.
pub fn append_str(chars: &mut Vec<char>, text: &str)
    ensures
        final(chars)@ == old(chars)@ + text@,
{
    let suffix = chars_of(text);
    let ghost start = chars@;
    let mut i: usize = 0;
    while i < suffix.len()
        invariant
            i <= suffix@.len(),
            suffix@ == text@,
            chars@ == start + suffix@.take(i as int),
        decreases suffix@.len() - i,
    {
        chars.push(suffix[i]);
        proof {
            assert(suffix@.take(i as int + 1) =~= suffix@.take(i as int).push(suffix@[i as int]));
        }
        i = i + 1;
    }
    proof {
        assert(suffix@.take(i as int) =~= suffix@);
    }
}


} // verus!
