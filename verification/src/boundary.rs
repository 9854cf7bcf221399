//! Character boundaries of UTF-8 text, and slicing a `str` at them.

use vstd::prelude::*;
use vstd::string::StringSliceAdditionalSpecFns;
use vstd::utf8::*;

verus! {

/// The number of bytes of the character whose encoding begins with `b`.
pub open spec fn char_width(b: u8) -> int {
    if b <= 0x7f {
        1
    } else if b <= 0xdf {
        2
    } else if b <= 0xef {
        3
    } else {
        4
    }
}

/// From a character boundary inside valid UTF-8 the next boundary lies one
/// character width further on, and only continuation bytes lie between.
pub proof fn lemma_boundary_step(s: Seq<u8>, p: int)
    requires
        valid_utf8(s),
        0 <= p < s.len(),
        is_char_boundary(s, p),
    ensures
        !is_continuation_byte(s[p]),
        p + char_width(s[p]) <= s.len(),
        is_char_boundary(s, p + char_width(s[p])),
        forall|j: int| p < j < p + char_width(s[p]) ==> is_continuation_byte(#[trigger] s[j]),
    decreases s.len(),
{
    let first = length_of_first_scalar(s);
    let rest = pop_first_scalar(s);
    assert(valid_first_scalar(s));
    assert(valid_utf8(rest));
    if p == 0 {
        assert(first == char_width(s[0]));
        assert(is_char_boundary(rest, 0));
        assert(is_char_boundary(s, first));
    } else {
        assert(is_char_boundary(rest, p - first));
        assert(p >= first) by {
            reveal_with_fuel(is_char_boundary, 2);
        }
        lemma_boundary_step(rest, p - first);
        let w = char_width(s[p]);
        assert(rest[p - first] == s[p]);
        assert forall|j: int| p < j < p + w implies is_continuation_byte(#[trigger] s[j]) by {
            assert(rest[j - first] == s[j]);
        }
        assert(is_char_boundary(s, p + w));
    }
}

/// A boundary of the whole text that lies inside a prefix cut at a boundary is
/// a boundary of that prefix.
pub proof fn lemma_boundary_in_prefix(s: Seq<u8>, from: int, to: int)
    requires
        valid_utf8(s),
        0 <= from <= to <= s.len(),
        is_char_boundary(s, from),
        is_char_boundary(s, to),
    ensures
        valid_utf8(s.subrange(0, to)),
        is_char_boundary(s.subrange(0, to), from),
{
    let head = s.subrange(0, to);
    valid_utf8_split(s, to);
    if from == to {
        is_char_boundary_start_end_of_seq(head);
    } else {
        is_char_boundary_iff_not_is_continuation_byte(s, from);
        is_char_boundary_iff_not_is_continuation_byte(head, from);
    }
}

/// The encoding of a concatenation is the concatenation of the encodings.
pub proof fn lemma_encode_concat(a: Seq<char>, b: Seq<char>)
    ensures
        encode_utf8(a + b) == encode_utf8(a) + encode_utf8(b),
    decreases a.len(),
{
    if a.len() == 0 {
        assert(a + b =~= b);
        assert(encode_utf8(a) + encode_utf8(b) =~= encode_utf8(b));
    } else {
        lemma_encode_concat(a.drop_first(), b);
        assert((a + b).drop_first() =~= a.drop_first() + b);
        assert(encode_utf8(a + b) =~= encode_utf8(a) + encode_utf8(b));
    }
}

/// The part of `s` between two character boundaries.
pub fn slice_between(s: &str, from: usize, to: usize) -> (r: &str)
    requires
        from <= to <= s.spec_bytes().len(),
        is_char_boundary(s.spec_bytes(), from as int),
        is_char_boundary(s.spec_bytes(), to as int),
    ensures
        r.spec_bytes() == s.spec_bytes().subrange(from as int, to as int),
{
    proof {
        encode_utf8_valid_utf8(s@);
        lemma_boundary_in_prefix(s.spec_bytes(), from as int, to as int);
    }
    let (head, _) = s.split_at(to);
    let (_, part) = head.split_at(from);
    assert(part.spec_bytes() =~= s.spec_bytes().subrange(from as int, to as int));
    part
}

} // verus!
