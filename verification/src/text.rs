//! Text as bytes: white space, tokens, lines, splitting at a delimiter, and
//! whether bytes are UTF-8 text at all.
//!
//! The sensor sources and the model file are UTF-8 text. Every delimiter that
//! matters here is an ASCII byte, and the white-space characters of Unicode
//! have encodings that no other character's bytes contain, so all of it can be
//! done on the bytes.

use vstd::prelude::*;
use vstd::slice::slice_subrange;
use vstd::utf8::{
    length_of_first_scalar,
    pop_first_scalar,
    valid_first_scalar,
    valid_utf8,
    valid_utf8_concat,
};

verus! {

/// The line feed that ends a line.
pub const NEWLINE: u8 = 0x0A;

/// The carriage return that may stand before a line feed.
pub const CARRIAGE_RETURN: u8 = 0x0D;

/// Tab, line feed, vertical tab, form feed, carriage return or space.
pub open spec fn is_ascii_white_space(b: u8) -> bool {
    (0x09 <= b && b <= 0x0D) || b == 0x20
}

/// The two-byte encodings of white space: U+0085 and U+00A0.
pub open spec fn is_white_space_pair(a: u8, b: u8) -> bool {
    a == 0xC2 && (b == 0x85 || b == 0xA0)
}

/// The three-byte encodings of white space: U+1680, U+2000 to U+200A, U+2028,
/// U+2029, U+202F, U+205F and U+3000.
pub open spec fn is_white_space_triple(a: u8, b: u8, c: u8) -> bool {
    ||| (a == 0xE1 && b == 0x9A && c == 0x80)
    ||| (a == 0xE2 && b == 0x80 && ((0x80 <= c && c <= 0x8A) || c == 0xA8 || c == 0xA9 || c
        == 0xAF))
    ||| (a == 0xE2 && b == 0x81 && c == 0x9F)
    ||| (a == 0xE3 && b == 0x80 && c == 0x80)
}

/// How many bytes the white-space character at the start of `s` takes, or 0
/// where `s` does not start with one.
pub open spec fn white_space_prefix(s: Seq<u8>) -> nat {
    if s.len() >= 1 && is_ascii_white_space(s[0]) {
        1
    } else if s.len() >= 2 && is_white_space_pair(s[0], s[1]) {
        2
    } else if s.len() >= 3 && is_white_space_triple(s[0], s[1], s[2]) {
        3
    } else {
        0
    }
}

/// How many bytes the white-space character at the end of `s` takes, or 0
/// where `s` does not end with one.
pub open spec fn white_space_suffix(s: Seq<u8>) -> nat {
    let n = s.len() as int;
    if n >= 1 && is_ascii_white_space(s[n - 1]) {
        1
    } else if n >= 2 && is_white_space_pair(s[n - 2], s[n - 1]) {
        2
    } else if n >= 3 && is_white_space_triple(s[n - 3], s[n - 2], s[n - 1]) {
        3
    } else {
        0
    }
}

/// `s` without the white space it starts with.
pub open spec fn trim_start(s: Seq<u8>) -> Seq<u8>
    decreases s.len(),
{
    let n = white_space_prefix(s);
    if n == 0 {
        s
    } else {
        trim_start(s.skip(n as int))
    }
}

/// `s` without the white space it ends with.
pub open spec fn trim_end(s: Seq<u8>) -> Seq<u8>
    decreases s.len(),
{
    let n = white_space_suffix(s);
    if n == 0 {
        s
    } else {
        trim_end(s.take(s.len() - n))
    }
}

/// `s` without the white space at either end.
pub open spec fn trim(s: Seq<u8>) -> Seq<u8> {
    trim_end(trim_start(s))
}

/// How many bytes of `s` come before its first white space.
pub open spec fn token_len(s: Seq<u8>) -> nat
    decreases s.len(),
{
    if s.len() == 0 || white_space_prefix(s) > 0 {
        0
    } else {
        1 + token_len(s.skip(1))
    }
}

/// The first piece of `s` that white space delimits; `None` where `s` holds
/// nothing but white space.
pub open spec fn spec_first_token(s: Seq<u8>) -> Option<Seq<u8>> {
    let t = trim_start(s);
    if t.len() == 0 {
        None
    } else {
        Some(t.take(token_len(t) as int))
    }
}

/// Where `byte` first stands in `s`, or the length of `s` where it does not
/// occur.
pub open spec fn index_of(s: Seq<u8>, byte: u8) -> int
    decreases s.len(),
{
    if s.len() == 0 || s[0] == byte {
        0
    } else {
        1 + index_of(s.skip(1), byte)
    }
}

/// The parts of `s` before and after the first `byte`; `None` where `s` holds
/// no such byte.
pub open spec fn spec_split_once(s: Seq<u8>, byte: u8) -> Option<(Seq<u8>, Seq<u8>)> {
    let n = index_of(s, byte);
    if n == s.len() {
        None
    } else {
        Some((s.take(n), s.skip(n + 1)))
    }
}

/// A line as it was terminated, without the carriage return that stood before
/// its line feed.
pub open spec fn strip_carriage_return(line: Seq<u8>) -> Seq<u8> {
    if line.len() > 0 && line.last() == CARRIAGE_RETURN {
        line.drop_last()
    } else {
        line
    }
}

/// The first line of a text that is not empty: up to the first line feed,
/// without it and without a carriage return before it; or the whole text
/// where it holds no line feed.
pub open spec fn first_line(s: Seq<u8>) -> Seq<u8> {
    let n = index_of(s, NEWLINE);
    if n == s.len() {
        s
    } else {
        strip_carriage_return(s.take(n))
    }
}

/// What follows the first line and its line feed.
pub open spec fn after_first_line(s: Seq<u8>) -> Seq<u8> {
    let n = index_of(s, NEWLINE);
    if n == s.len() {
        Seq::empty()
    } else {
        s.skip(n + 1)
    }
}

/// The lines of a text. A line feed ends a line; the last line need not have
/// one, and an empty text has no line.
pub open spec fn lines(s: Seq<u8>) -> Seq<Seq<u8>>
    decreases s.len(),
    via lines_go_on
{
    if s.len() == 0 {
        Seq::empty()
    } else {
        seq![first_line(s)] + lines(after_first_line(s))
    }
}

#[via_fn]
proof fn lines_go_on(s: Seq<u8>) {
    lemma_index_of(s, NEWLINE);
}

/// `index_of` is the least place of the byte: nothing before it is the byte,
/// and it is the length or the byte stands there.
pub proof fn lemma_index_of(s: Seq<u8>, byte: u8)
    ensures
        0 <= index_of(s, byte) <= s.len(),
        forall|k: int| 0 <= k < index_of(s, byte) ==> s[k] != byte,
        index_of(s, byte) < s.len() ==> s[index_of(s, byte)] == byte,
    decreases s.len(),
{
    if s.len() != 0 && s[0] != byte {
        let rest = s.skip(1);
        lemma_index_of(rest, byte);
        assert forall|k: int| 0 <= k < index_of(s, byte) implies s[k] != byte by {
            if k > 0 {
                assert(s[k] == rest[k - 1]);
            }
        }
    }
}

/// A place with the properties of `index_of` is `index_of`.
pub proof fn lemma_index_of_is(s: Seq<u8>, byte: u8, n: int)
    requires
        0 <= n <= s.len(),
        forall|k: int| 0 <= k < n ==> s[k] != byte,
        n < s.len() ==> s[n] == byte,
    ensures
        index_of(s, byte) == n,
{
    lemma_index_of(s, byte);
}

/// Whether white space starts at `at`, and how many bytes it takes.
pub fn white_space_at(text: &[u8], at: usize) -> (n: usize)
    requires
        at <= text.len(),
    ensures
        n == white_space_prefix(text@.skip(at as int)),
        at + n <= text.len(),
{
    let len: usize = text.len();
    let left: usize = len - at;
    if left >= 1 {
        let a: u8 = text[at];
        if (0x09 <= a && a <= 0x0D) || a == 0x20 {
            return 1;
        }
        if left >= 2 {
            let b: u8 = text[at + 1];
            if a == 0xC2 && (b == 0x85 || b == 0xA0) {
                return 2;
            }
            if left >= 3 {
                let c: u8 = text[at + 2];
                if (a == 0xE1 && b == 0x9A && c == 0x80) || (a == 0xE2 && b == 0x80 && ((0x80 <= c
                    && c <= 0x8A) || c == 0xA8 || c == 0xA9 || c == 0xAF)) || (a == 0xE2 && b
                    == 0x81 && c == 0x9F) || (a == 0xE3 && b == 0x80 && c == 0x80) {
                    return 3;
                }
            }
        }
    }
    0
}

/// Whether white space ends just before `end`, not reaching back over
/// `start`, and how many bytes it takes.
pub fn white_space_before(text: &[u8], start: usize, end: usize) -> (n: usize)
    requires
        start <= end <= text.len(),
    ensures
        n == white_space_suffix(text@.subrange(start as int, end as int)),
        start + n <= end,
{
    let have: usize = end - start;
    if have >= 1 {
        let c: u8 = text[end - 1];
        if (0x09 <= c && c <= 0x0D) || c == 0x20 {
            return 1;
        }
        if have >= 2 {
            let b: u8 = text[end - 2];
            if b == 0xC2 && (c == 0x85 || c == 0xA0) {
                return 2;
            }
            if have >= 3 {
                let a: u8 = text[end - 3];
                if (a == 0xE1 && b == 0x9A && c == 0x80) || (a == 0xE2 && b == 0x80 && ((0x80 <= c
                    && c <= 0x8A) || c == 0xA8 || c == 0xA9 || c == 0xAF)) || (a == 0xE2 && b
                    == 0x81 && c == 0x9F) || (a == 0xE3 && b == 0x80 && c == 0x80) {
                    return 3;
                }
            }
        }
    }
    0
}

/// Where the text starts once its leading white space is passed.
pub fn skip_white_space(text: &[u8]) -> (at: usize)
    ensures
        at <= text.len(),
        text@.skip(at as int) == trim_start(text@),
{
    let mut at: usize = 0;
    proof {
        assert(text@.skip(0) =~= text@);
    }
    loop
        invariant
            at <= text.len(),
            trim_start(text@.skip(at as int)) == trim_start(text@),
        decreases text.len() - at,
    {
        let n: usize = white_space_at(text, at);
        if n == 0 {
            return at;
        }
        proof {
            assert(text@.skip(at as int).skip(n as int) =~= text@.skip(at + n));
        }
        at = at + n;
    }
}

/// The text without the white space at either end.
pub fn trimmed(text: &[u8]) -> (r: &[u8])
    ensures
        r@ == trim(text@),
{
    let start: usize = skip_white_space(text);
    let mut end: usize = text.len();
    loop
        invariant
            start <= end <= text.len(),
            trim_end(text@.subrange(start as int, end as int)) == trim(text@),
        decreases end,
    {
        let n: usize = white_space_before(text, start, end);
        if n == 0 {
            return slice_subrange(text, start, end);
        }
        proof {
            let s = text@.subrange(start as int, end as int);
            assert(s.take(s.len() - n) =~= text@.subrange(start as int, end - n));
        }
        end = end - n;
    }
}

/// The first piece of the text that white space delimits; `None` where the
/// text holds nothing but white space.
pub fn first_token(text: &[u8]) -> (r: Option<&[u8]>)
    ensures
        match r {
            Some(t) => spec_first_token(text@) == Some(t@),
            None => spec_first_token(text@).is_none(),
        },
{
    let start: usize = skip_white_space(text);
    if start == text.len() {
        return None;
    }
    let ghost rest = text@.skip(start as int);
    let mut end: usize = start;
    loop
        invariant
            start <= end <= text.len(),
            start < text.len(),
            rest == text@.skip(start as int),
            rest == trim_start(text@),
            token_len(rest) == (end - start) + token_len(text@.skip(end as int)),
        decreases text.len() - end,
    {
        let stop: bool = end == text.len() || white_space_at(text, end) > 0;
        if stop {
            return Some(slice_subrange(text, start, end));
        }
        proof {
            assert(text@.skip(end as int).skip(1) =~= text@.skip(end + 1));
        }
        end = end + 1;
    }
}

/// Where `byte` first stands at or after `from`, or the length of the text.
pub fn find_byte(text: &[u8], from: usize, byte: u8) -> (at: usize)
    requires
        from <= text.len(),
    ensures
        from <= at <= text.len(),
        at - from == index_of(text@.skip(from as int), byte),
{
    let mut at: usize = from;
    while at < text.len() && text[at] != byte
        invariant
            from <= at <= text.len(),
            forall|k: int| from <= k < at ==> text@[k] != byte,
        decreases text.len() - at,
    {
        at = at + 1;
    }
    proof {
        lemma_index_of_is(text@.skip(from as int), byte, at - from);
    }
    at
}

/// The parts of the text before and after the first `byte`; `None` where the
/// text holds no such byte.
pub fn split_once(text: &[u8], byte: u8) -> (r: Option<(&[u8], &[u8])>)
    ensures
        match r {
            Some((head, tail)) => spec_split_once(text@, byte) == Some((head@, tail@)),
            None => spec_split_once(text@, byte).is_none(),
        },
{
    let at: usize = find_byte(text, 0, byte);
    proof {
        assert(text@.skip(0) =~= text@);
    }
    if at == text.len() {
        None
    } else {
        let head = slice_subrange(text, 0, at);
        let tail = slice_subrange(text, at + 1, text.len());
        Some((head, tail))
    }
}

/// A character of one byte is below the surrogates.
proof fn lemma_one_byte(a: u8)
    by (bit_vector)
    requires
        a <= 0x7F,
    ensures
        ((a & 0x7F) as u32) < 0xD800,
{
}

/// A character of two bytes is not overlong from the lead byte 0xC2 on, and
/// is below the surrogates.
proof fn lemma_two_bytes(a: u8, b: u8)
    by (bit_vector)
    requires
        0xC0 <= a && a <= 0xDF,
        0x80 <= b && b <= 0xBF,
    ensures
        0x80 <= ((((a & 0x1F) as u32) << 6) | ((b & 0x3F) as u32)) <==> 0xC2 <= a,
        ((((a & 0x1F) as u32) << 6) | ((b & 0x3F) as u32)) < 0xD800,
{
}

/// A character of three bytes is not overlong unless it starts 0xE0 with a
/// second byte below 0xA0, and is a surrogate where it starts 0xED with a
/// second byte from 0xA0 on.
proof fn lemma_three_bytes(a: u8, b: u8, c: u8)
    by (bit_vector)
    requires
        0xE0 <= a && a <= 0xEF,
        0x80 <= b && b <= 0xBF,
        0x80 <= c && c <= 0xBF,
    ensures
        0x800 <= ((((a & 0x0F) as u32) << 12) | (((b & 0x3F) as u32) << 6) | ((c & 0x3F) as u32))
            <==> (a != 0xE0 || 0xA0 <= b),
        (0xD800 <= ((((a & 0x0F) as u32) << 12) | (((b & 0x3F) as u32) << 6) | ((c
            & 0x3F) as u32)) && ((((a & 0x0F) as u32) << 12) | (((b & 0x3F) as u32) << 6) | ((c
            & 0x3F) as u32)) <= 0xDFFF) <==> (a == 0xED && 0xA0 <= b),
{
}

/// A character of four bytes is within the range of Unicode from the lead
/// byte 0xF0 with a second byte from 0x90 on up to the lead byte 0xF4 with a
/// second byte up to 0x8F.
proof fn lemma_four_bytes(a: u8, b: u8, c: u8, d: u8)
    by (bit_vector)
    requires
        0xF0 <= a && a <= 0xF7,
        0x80 <= b && b <= 0xBF,
        0x80 <= c && c <= 0xBF,
        0x80 <= d && d <= 0xBF,
    ensures
        (0x10000 <= ((((a & 0x07) as u32) << 18) | (((b & 0x3F) as u32) << 12) | (((c
            & 0x3F) as u32) << 6) | ((d & 0x3F) as u32)) && ((((a & 0x07) as u32) << 18) | (((b
            & 0x3F) as u32) << 12) | (((c & 0x3F) as u32) << 6) | ((d & 0x3F) as u32))
            <= 0x10FFFF) <==> (a <= 0xF4 && (a != 0xF0 || 0x90 <= b) && (a != 0xF4 || b <= 0x8F)),
{
}

/// A single ASCII byte is UTF-8 text.
pub proof fn lemma_ascii_byte_is_utf8(b: u8)
    requires
        b <= 0x7F,
    ensures
        valid_utf8(seq![b]),
{
    reveal_with_fuel(valid_utf8, 2);
    lemma_one_byte(b);
    let s = seq![b];
    assert(valid_first_scalar(s));
    assert(pop_first_scalar(s).len() == 0);
}

/// Every byte is ASCII.
pub open spec fn is_ascii(s: Seq<u8>) -> bool {
    forall|i: int| 0 <= i < s.len() ==> #[trigger] s[i] <= 0x7F
}

/// ASCII bytes are UTF-8 text.
pub proof fn lemma_ascii_is_utf8(s: Seq<u8>)
    requires
        is_ascii(s),
    ensures
        valid_utf8(s),
    decreases s.len(),
{
    if s.len() > 0 {
        lemma_ascii_is_utf8(s.drop_last());
        lemma_ascii_byte_is_utf8(s.last());
        valid_utf8_concat(s.drop_last(), seq![s.last()]);
        assert(s.drop_last() + seq![s.last()] =~= s);
    }
}

/// How many bytes the character at `at` takes, or 0 where no well-formed
/// character starts there.
pub fn scalar_at(text: &[u8], at: usize) -> (n: usize)
    requires
        at <= text.len(),
    ensures
        n == 0 <==> !valid_first_scalar(text@.subrange(at as int, text@.len() as int)),
        n > 0 ==> n == length_of_first_scalar(text@.subrange(at as int, text@.len() as int)),
        at + n <= text.len(),
{
    let left: usize = text.len() - at;
    let ghost s = text@.subrange(at as int, text@.len() as int);
    if left == 0 {
        return 0;
    }
    let a: u8 = text[at];
    assert(s[0] == a);
    if a <= 0x7F {
        proof {
            lemma_one_byte(a);
        }
        return 1;
    }
    if left >= 2 {
        let b: u8 = text[at + 1];
        assert(s[1] == b);
        if 0xC0 <= a && a <= 0xDF && 0x80 <= b && b <= 0xBF {
            proof {
                lemma_two_bytes(a, b);
            }
            if 0xC2 <= a {
                return 2;
            }
            return 0;
        }
        if left >= 3 {
            let c: u8 = text[at + 2];
            assert(s[2] == c);
            if 0xE0 <= a && a <= 0xEF && 0x80 <= b && b <= 0xBF && 0x80 <= c && c <= 0xBF {
                proof {
                    lemma_three_bytes(a, b, c);
                }
                if (a != 0xE0 || 0xA0 <= b) && (a != 0xED || b < 0xA0) {
                    return 3;
                }
                return 0;
            }
            if left >= 4 {
                let d: u8 = text[at + 3];
                assert(s[3] == d);
                if 0xF0 <= a && a <= 0xF7 && 0x80 <= b && b <= 0xBF && 0x80 <= c && c <= 0xBF
                    && 0x80 <= d && d <= 0xBF {
                    proof {
                        lemma_four_bytes(a, b, c, d);
                    }
                    if a <= 0xF4 && (a != 0xF0 || 0x90 <= b) && (a != 0xF4 || b <= 0x8F) {
                        return 4;
                    }
                    return 0;
                }
            }
        }
    }
    0
}

/// Whether the bytes are UTF-8 text.
pub fn is_utf8(text: &[u8]) -> (r: bool)
    ensures
        r == valid_utf8(text@),
{
    let mut at: usize = 0;
    proof {
        assert(text@.subrange(0, text@.len() as int) =~= text@);
    }
    loop
        invariant
            at <= text.len(),
            valid_utf8(text@) == valid_utf8(text@.subrange(at as int, text@.len() as int)),
        decreases text.len() - at,
    {
        if at == text.len() {
            return true;
        }
        let n: usize = scalar_at(text, at);
        if n == 0 {
            return false;
        }
        proof {
            let here = text@.subrange(at as int, text@.len() as int);
            assert(pop_first_scalar(here) =~= text@.subrange(at + n, text@.len() as int));
        }
        at = at + n;
    }
}

/// Whether two texts hold the same bytes.
pub fn same_bytes(a: &[u8], b: &[u8]) -> (r: bool)
    ensures
        r == (a@ == b@),
{
    if a.len() != b.len() {
        return false;
    }
    let mut i: usize = 0;
    while i < a.len()
        invariant
            i <= a.len(),
            a.len() == b.len(),
            forall|k: int| 0 <= k < i ==> a@[k] == b@[k],
        decreases a.len() - i,
    {
        if a[i] != b[i] {
            return false;
        }
        i = i + 1;
    }
    proof {
        assert(a@ =~= b@);
    }
    true
}

} // verus!
