//! Byte classes that the search engine distinguishes.

use vstd::prelude::*;
use vstd::string::StringSliceAdditionalSpecFns;
use vstd::utf8::{
    encode_utf8_decode_utf8, encode_utf8_valid_utf8, is_char_boundary, is_char_boundary_iff_not_is_continuation_byte,
    is_char_boundary_start_end_of_seq, valid_utf8,
};
use crate::boundary::{lemma_boundary_step, slice_between};

verus! {

/// The ASCII lower-case form of a byte; bytes other than `A`..`Z` are left as they are.
pub open spec fn fold_byte(b: u8) -> u8 {
    if 0x41 <= b <= 0x5a {
        (b + 0x20) as u8
    } else {
        b
    }
}

/// Whether a byte is an ASCII letter or digit.
pub open spec fn is_alnum(b: u8) -> bool {
    (0x30 <= b <= 0x39) || (0x41 <= b <= 0x5a) || (0x61 <= b <= 0x7a)
}

/// Whether two bytes count as the same under the given case mode.
pub open spec fn same_byte(a: u8, b: u8, case_sensitive: bool) -> bool {
    if case_sensitive {
        a == b
    } else {
        fold_byte(a) == fold_byte(b)
    }
}

/// Computes [`fold_byte`].
pub fn lower_byte(b: u8) -> (r: u8)
    ensures
        r == fold_byte(b),
{
    if 0x41 <= b && b <= 0x5a {
        b + 0x20
    } else {
        b
    }
}

/// Computes [`is_alnum`].
pub fn byte_is_alnum(b: u8) -> (r: bool)
    ensures
        r == is_alnum(b),
{
    (0x30 <= b && b <= 0x39) || (0x41 <= b && b <= 0x5a) || (0x61 <= b && b <= 0x7a)
}

/// Computes [`same_byte`].
pub fn bytes_agree(a: u8, b: u8, case_sensitive: bool) -> (r: bool)
    ensures
        r == same_byte(a, b, case_sensitive),
{
    if case_sensitive {
        a == b
    } else {
        lower_byte(a) == lower_byte(b)
    }
}

/// Whether a byte is one of the ASCII blanks: tab, line feed, vertical tab,
/// form feed, carriage return or space.
pub open spec fn is_ascii_blank(b: u8) -> bool {
    (0x09 <= b <= 0x0d) || b == 0x20
}

/// Whether two bytes encode a blank: U+0085 (next line) or U+00A0 (no-break space).
pub open spec fn is_blank_pair(a: u8, b: u8) -> bool {
    a == 0xc2 && (b == 0x85 || b == 0xa0)
}

/// Whether three bytes encode a blank: U+1680, U+2000 to U+200A, U+2028,
/// U+2029, U+202F, U+205F or U+3000.
pub open spec fn is_blank_triple(a: u8, b: u8, c: u8) -> bool {
    ||| (a == 0xe1 && b == 0x9a && c == 0x80)
    ||| (a == 0xe2 && b == 0x80 && ((0x80 <= c <= 0x8a) || c == 0xa8 || c == 0xa9 || c == 0xaf))
    ||| (a == 0xe2 && b == 0x81 && c == 0x9f)
    ||| (a == 0xe3 && b == 0x80 && c == 0x80)
}

/// The number of bytes of the blank character that begins at `at`, or 0 where
/// none begins there. The blanks are the characters with the Unicode property
/// White_Space.
pub open spec fn blank_width_at(s: Seq<u8>, at: int) -> int {
    if at < 0 || at >= s.len() {
        0
    } else if is_ascii_blank(s[at]) {
        1
    } else if at + 1 < s.len() && is_blank_pair(s[at], s[at + 1]) {
        2
    } else if at + 2 < s.len() && is_blank_triple(s[at], s[at + 1], s[at + 2]) {
        3
    } else {
        0
    }
}

/// The number of bytes of the blank character that ends just before `end`, or
/// 0 where none ends there.
pub open spec fn blank_width_before(s: Seq<u8>, end: int) -> int {
    if end <= 0 || end > s.len() {
        0
    } else if is_ascii_blank(s[end - 1]) {
        1
    } else if end >= 2 && is_blank_pair(s[end - 2], s[end - 1]) {
        2
    } else if end >= 3 && is_blank_triple(s[end - 3], s[end - 2], s[end - 1]) {
        3
    } else {
        0
    }
}

/// The offset of the first character at or after `from` that is not a blank.
pub open spec fn skip_blanks(s: Seq<u8>, from: int) -> int
    decreases s.len() - from,
{
    if blank_width_at(s, from) > 0 {
        skip_blanks(s, from + blank_width_at(s, from))
    } else {
        from
    }
}

/// The offset just after the last character before `end` that is not a blank,
/// without going below `floor`.
pub open spec fn drop_blanks(s: Seq<u8>, floor: int, end: int) -> int
    decreases end,
{
    if blank_width_before(s, end) > 0 && floor <= end - blank_width_before(s, end) {
        drop_blanks(s, floor, end - blank_width_before(s, end))
    } else {
        end
    }
}

/// Where the text starts once its leading blanks are removed.
pub open spec fn trim_start(s: Seq<u8>) -> int {
    skip_blanks(s, 0)
}

/// Where the text ends once its leading and then its trailing blanks are removed.
pub open spec fn trim_end(s: Seq<u8>) -> int {
    drop_blanks(s, trim_start(s), s.len() as int)
}

/// The text without its leading and trailing blanks.
pub open spec fn trimmed(s: Seq<u8>) -> Seq<u8> {
    s.subrange(trim_start(s), trim_end(s))
}

/// The ends of the trimmed text lie in order inside the text.
pub proof fn lemma_trim_bounds(s: Seq<u8>)
    ensures
        0 <= trim_start(s) <= trim_end(s) <= s.len(),
{
    lemma_skip_blanks_bounds(s, 0);
    lemma_drop_blanks_bounds(s, trim_start(s), s.len() as int);
}

pub proof fn lemma_skip_blanks_bounds(s: Seq<u8>, from: int)
    requires
        0 <= from <= s.len(),
    ensures
        from <= skip_blanks(s, from) <= s.len(),
    decreases s.len() - from,
{
    if blank_width_at(s, from) > 0 {
        lemma_skip_blanks_bounds(s, from + blank_width_at(s, from));
    }
}

pub proof fn lemma_drop_blanks_bounds(s: Seq<u8>, floor: int, end: int)
    requires
        floor <= end,
    ensures
        floor <= drop_blanks(s, floor, end) <= end,
    decreases end,
{
    if blank_width_before(s, end) > 0 && floor <= end - blank_width_before(s, end) {
        lemma_drop_blanks_bounds(s, floor, end - blank_width_before(s, end));
    }
}

/// The trimmed text begins and ends on character boundaries of the text.
pub proof fn lemma_trim_on_boundaries(s: Seq<u8>)
    requires
        valid_utf8(s),
    ensures
        is_char_boundary(s, trim_start(s)),
        is_char_boundary(s, trim_end(s)),
{
    is_char_boundary_start_end_of_seq(s);
    lemma_skip_blanks_on_boundary(s, 0);
    lemma_drop_blanks_on_boundary(s, trim_start(s), s.len() as int);
}

proof fn lemma_skip_blanks_on_boundary(s: Seq<u8>, from: int)
    requires
        valid_utf8(s),
        0 <= from <= s.len(),
        is_char_boundary(s, from),
    ensures
        is_char_boundary(s, skip_blanks(s, from)),
    decreases s.len() - from,
{
    if blank_width_at(s, from) > 0 {
        lemma_boundary_step(s, from);
        lemma_skip_blanks_on_boundary(s, from + blank_width_at(s, from));
    }
}

proof fn lemma_drop_blanks_on_boundary(s: Seq<u8>, floor: int, end: int)
    requires
        valid_utf8(s),
        0 <= end <= s.len(),
        is_char_boundary(s, end),
    ensures
        is_char_boundary(s, drop_blanks(s, floor, end)),
    decreases end,
{
    let w = blank_width_before(s, end);
    if w > 0 && floor <= end - w {
        is_char_boundary_iff_not_is_continuation_byte(s, end - w);
        lemma_drop_blanks_on_boundary(s, floor, end - w);
    }
}

/// The scan over leading blanks does not pass a character that is no blank.
pub proof fn lemma_skip_blanks_stops(s: Seq<u8>, from: int, stop: int)
    requires
        valid_utf8(s),
        0 <= from <= stop <= s.len(),
        is_char_boundary(s, from),
        is_char_boundary(s, stop),
        blank_width_at(s, stop) == 0,
    ensures
        skip_blanks(s, from) <= stop,
    decreases s.len() - from,
{
    let w = blank_width_at(s, from);
    if w > 0 {
        lemma_boundary_step(s, from);
        assert(stop >= from + w) by {
            if stop < from + w {
                is_char_boundary_iff_not_is_continuation_byte(s, stop);
            }
        }
        lemma_skip_blanks_stops(s, from + w, stop);
    }
}

/// The scan over trailing blanks does not pass a character that is no blank.
pub proof fn lemma_drop_blanks_stops(s: Seq<u8>, floor: int, end: int, stop: int)
    requires
        valid_utf8(s),
        0 <= stop <= end <= s.len(),
        is_char_boundary(s, stop),
        blank_width_before(s, stop) == 0,
    ensures
        stop <= drop_blanks(s, floor, end),
    decreases end,
{
    let w = blank_width_before(s, end);
    if w > 0 && floor <= end - w {
        assert(stop <= end - w) by {
            if stop > end - w {
                is_char_boundary_iff_not_is_continuation_byte(s, stop);
            }
        }
        lemma_drop_blanks_stops(s, floor, end - w, stop);
    }
}

/// Computes [`blank_width_at`].
fn blank_at(s: &[u8], at: usize) -> (w: usize)
    requires
        at <= s@.len(),
    ensures
        w == blank_width_at(s@, at as int),
{
    let n: usize = s.len();
    if at >= n {
        return 0;
    }
    let a: u8 = s[at];
    if (0x09 <= a && a <= 0x0d) || a == 0x20 {
        return 1;
    }
    if n - at >= 2 {
        let b: u8 = s[at + 1];
        if a == 0xc2 && (b == 0x85 || b == 0xa0) {
            return 2;
        }
        if n - at >= 3 {
            let c: u8 = s[at + 2];
            if (a == 0xe1 && b == 0x9a && c == 0x80) || (a == 0xe2 && b == 0x80 && ((0x80 <= c
                && c <= 0x8a) || c == 0xa8 || c == 0xa9 || c == 0xaf)) || (a == 0xe2 && b == 0x81
                && c == 0x9f) || (a == 0xe3 && b == 0x80 && c == 0x80) {
                return 3;
            }
        }
    }
    0
}

/// Computes [`blank_width_before`].
fn blank_before(s: &[u8], end: usize) -> (w: usize)
    requires
        end <= s@.len(),
    ensures
        w == blank_width_before(s@, end as int),
{
    if end == 0 {
        return 0;
    }
    let c: u8 = s[end - 1];
    if (0x09 <= c && c <= 0x0d) || c == 0x20 {
        return 1;
    }
    if end >= 2 {
        let b: u8 = s[end - 2];
        if b == 0xc2 && (c == 0x85 || c == 0xa0) {
            return 2;
        }
        if end >= 3 {
            let a: u8 = s[end - 3];
            if (a == 0xe1 && b == 0x9a && c == 0x80) || (a == 0xe2 && b == 0x80 && ((0x80 <= c
                && c <= 0x8a) || c == 0xa8 || c == 0xa9 || c == 0xaf)) || (a == 0xe2 && b == 0x81
                && c == 0x9f) || (a == 0xe3 && b == 0x80 && c == 0x80) {
                return 3;
            }
        }
    }
    0
}

/// Removes the blanks at both ends of a text.
pub fn trim(s: &str) -> (r: &str)
    ensures
        r.spec_bytes() == trimmed(s.spec_bytes()),
{
    let bytes = s.as_bytes();
    let n: usize = bytes.len();
    proof {
        encode_utf8_valid_utf8(s@);
        is_char_boundary_start_end_of_seq(bytes@);
    }
    let mut start: usize = 0;
    let mut w: usize = blank_at(bytes, start);
    while w > 0
        invariant
            n == bytes@.len(),
            valid_utf8(bytes@),
            start <= n,
            is_char_boundary(bytes@, start as int),
            w == blank_width_at(bytes@, start as int),
            skip_blanks(bytes@, start as int) == trim_start(bytes@),
        decreases n - start,
    {
        proof {
            lemma_boundary_step(bytes@, start as int);
        }
        start += w;
        w = blank_at(bytes, start);
    }
    let mut end: usize = n;
    w = blank_before(bytes, end);
    while w > 0 && end - w >= start
        invariant
            n == bytes@.len(),
            valid_utf8(bytes@),
            start <= end <= n,
            is_char_boundary(bytes@, end as int),
            w == blank_width_before(bytes@, end as int),
            w <= end,
            drop_blanks(bytes@, start as int, end as int) == drop_blanks(
                bytes@,
                start as int,
                n as int,
            ),
        decreases end,
    {
        proof {
            is_char_boundary_iff_not_is_continuation_byte(bytes@, end - w);
        }
        end -= w;
        w = blank_before(bytes, end);
    }
    slice_between(s, start, end)
}

/// Whether a text holds nothing but blanks.
pub fn is_blank(s: &str) -> (r: bool)
    ensures
        r == (trimmed(s.spec_bytes()).len() == 0),
{
    let t = trim(s);
    proof {
        lemma_trim_bounds(s.spec_bytes());
    }
    t.as_bytes().len() == 0
}

/// Whether two texts are the same.
pub fn same_text(a: &str, b: &str) -> (r: bool)
    ensures
        r == (a@ == b@),
{
    let x = a.as_bytes();
    let y = b.as_bytes();
    proof {
        encode_utf8_decode_utf8(a@);
        encode_utf8_decode_utf8(b@);
    }
    let n: usize = x.len();
    if y.len() != n {
        return false;
    }
    let mut i: usize = 0;
    while i < n
        invariant
            i <= n == x@.len() == y@.len(),
            x@ == a.spec_bytes(),
            y@ == b.spec_bytes(),
            forall|k: int| 0 <= k < i ==> x@[k] == y@[k],
        decreases n - i,
    {
        if x[i] != y[i] {
            return false;
        }
        i += 1;
    }
    assert(x@ =~= y@);
    true
}

} // verus!
