//! The replace engine: substitutes every occurrence of a search term in a text.

use vstd::prelude::*;
use vstd::string::{StringExecFns, StringSliceAdditionalSpecFns};
use vstd::utf8::{
    encode_utf8, encode_utf8_valid_utf8, is_char_boundary, is_char_boundary_start_end_of_seq,
    valid_utf8,
};
use crate::boundary::{lemma_encode_concat, slice_between};
use crate::matcher::{lemma_occurrence_on_boundaries, matches_at, occurs_at};

verus! {

/// The text from offset `from` on, with every occurrence of `search` replaced.
/// Occurrences are taken from left to right; the scan goes on behind each one,
/// so they do not overlap, and what was put in is not searched again. An
/// empty search term occurs nowhere.
pub open spec fn replaced_from(
    content: Seq<u8>,
    search: Seq<u8>,
    replacement: Seq<u8>,
    case_sensitive: bool,
    from: int,
) -> Seq<u8>
    decreases content.len() - from,
{
    if from < 0 || from >= content.len() {
        Seq::empty()
    } else if search.len() == 0 {
        content.subrange(from, content.len() as int)
    } else if occurs_at(content, search, case_sensitive, from) {
        replacement + replaced_from(
            content,
            search,
            replacement,
            case_sensitive,
            from + search.len(),
        )
    } else {
        seq![content[from]] + replaced_from(content, search, replacement, case_sensitive, from + 1)
    }
}

/// The text with every occurrence of `search` replaced by `replacement`.
pub open spec fn replaced(
    content: Seq<u8>,
    search: Seq<u8>,
    replacement: Seq<u8>,
    case_sensitive: bool,
) -> Seq<u8> {
    replaced_from(content, search, replacement, case_sensitive, 0)
}

/// Behind the last offset at which the search term still fits, the text stays as it is.
pub proof fn lemma_tail_unchanged(
    content: Seq<u8>,
    search: Seq<u8>,
    replacement: Seq<u8>,
    case_sensitive: bool,
    from: int,
)
    requires
        0 <= from <= content.len(),
        search.len() == 0 || from + search.len() > content.len(),
    ensures
        replaced_from(content, search, replacement, case_sensitive, from) == content.subrange(
            from,
            content.len() as int,
        ),
    decreases content.len() - from,
{
    if from < content.len() && search.len() > 0 {
        lemma_tail_unchanged(content, search, replacement, case_sensitive, from + 1);
        assert(seq![content[from]] + content.subrange(from + 1, content.len() as int)
            =~= content.subrange(from, content.len() as int));
    } else if from >= content.len() {
        assert(content.subrange(from, content.len() as int) =~= Seq::<u8>::empty());
    }
}

/// A text in which the search term occurs nowhere is left as it is.
pub proof fn lemma_replace_without_occurrence(
    content: Seq<u8>,
    search: Seq<u8>,
    replacement: Seq<u8>,
    case_sensitive: bool,
)
    requires
        forall|at: int| !occurs_at(content, search, case_sensitive, at) || search.len() == 0,
    ensures
        replaced(content, search, replacement, case_sensitive) == content,
{
    lemma_unchanged_from(content, search, replacement, case_sensitive, 0);
    assert(content.subrange(0, content.len() as int) =~= content);
}

proof fn lemma_unchanged_from(
    content: Seq<u8>,
    search: Seq<u8>,
    replacement: Seq<u8>,
    case_sensitive: bool,
    from: int,
)
    requires
        0 <= from <= content.len(),
        forall|at: int| !occurs_at(content, search, case_sensitive, at) || search.len() == 0,
    ensures
        replaced_from(content, search, replacement, case_sensitive, from) == content.subrange(
            from,
            content.len() as int,
        ),
    decreases content.len() - from,
{
    if from < content.len() && search.len() > 0 {
        lemma_unchanged_from(content, search, replacement, case_sensitive, from + 1);
        assert(seq![content[from]] + content.subrange(from + 1, content.len() as int)
            =~= content.subrange(from, content.len() as int));
    } else if from >= content.len() {
        assert(content.subrange(from, content.len() as int) =~= Seq::<u8>::empty());
    }
}

/// Replaces every occurrence of `search` in `content` by `replacement`, from
/// left to right and without overlap; with `case_sensitive` unset, ASCII
/// letters match in either case, and the text around the occurrences keeps
/// its case.
pub fn replace_matches(content: &str, search: &str, replacement: &str, case_sensitive: bool) -> (r:
    String)
    ensures
        encode_utf8(r@) == replaced(
            content.spec_bytes(),
            search.spec_bytes(),
            replacement.spec_bytes(),
            case_sensitive,
        ),
{
    let c = content.as_bytes();
    let q = search.as_bytes();
    let n: usize = c.len();
    let m: usize = q.len();
    let ghost with = replacement.spec_bytes();
    let mut out = String::new();
    proof {
        encode_utf8_valid_utf8(content@);
        encode_utf8_valid_utf8(search@);
        is_char_boundary_start_end_of_seq(c@);
        assert(encode_utf8(out@) =~= Seq::<u8>::empty());
        assert(c@.subrange(0, 0) =~= Seq::<u8>::empty());
        assert(Seq::<u8>::empty() + Seq::<u8>::empty() + replaced_from(
            c@,
            q@,
            with,
            case_sensitive,
            0,
        ) =~= replaced_from(c@, q@, with, case_sensitive, 0));
    }
    let mut kept: usize = 0;
    let mut at: usize = 0;
    while m > 0 && at < n && n - at >= m
        invariant
            n == c@.len(),
            m == q@.len(),
            c@ == content.spec_bytes(),
            q@ == search.spec_bytes(),
            with == replacement.spec_bytes(),
            valid_utf8(c@),
            valid_utf8(q@),
            kept <= at <= n,
            is_char_boundary(c@, kept as int),
            replaced(c@, q@, with, case_sensitive) == encode_utf8(out@) + c@.subrange(
                kept as int,
                at as int,
            ) + replaced_from(c@, q@, with, case_sensitive, at as int),
        decreases n - at,
    {
        if matches_at(c, q, case_sensitive, at) {
            proof {
                lemma_occurrence_on_boundaries(c@, q@, case_sensitive, at as int);
            }
            let ghost before = out@;
            let piece = slice_between(content, kept, at);
            out.append(piece);
            let ghost middle = out@;
            out.append(replacement);
            proof {
                lemma_encode_concat(before, piece@);
                lemma_encode_concat(middle, replacement@);
                assert(c@.subrange(at + m, at + m) =~= Seq::<u8>::empty());
                assert(encode_utf8(out@) + c@.subrange(at + m, at + m) + replaced_from(
                    c@,
                    q@,
                    with,
                    case_sensitive,
                    at + m,
                ) =~= encode_utf8(before) + c@.subrange(kept as int, at as int) + (with
                    + replaced_from(c@, q@, with, case_sensitive, at + m)));
            }
            at += m;
            kept = at;
        } else {
            proof {
                assert(c@.subrange(kept as int, at + 1) =~= c@.subrange(kept as int, at as int)
                    + seq![c@[at as int]]);
                assert(encode_utf8(out@) + c@.subrange(kept as int, at + 1) + replaced_from(
                    c@,
                    q@,
                    with,
                    case_sensitive,
                    at + 1,
                ) =~= encode_utf8(out@) + c@.subrange(kept as int, at as int) + (seq![
                    c@[at as int],
                ] + replaced_from(c@, q@, with, case_sensitive, at + 1)));
            }
            at += 1;
        }
    }
    let ghost before = out@;
    let rest = slice_between(content, kept, n);
    out.append(rest);
    proof {
        lemma_tail_unchanged(c@, q@, with, case_sensitive, at as int);
        lemma_encode_concat(before, rest@);
        assert(c@.subrange(kept as int, at as int) + c@.subrange(at as int, n as int)
            =~= c@.subrange(kept as int, n as int));
        assert(encode_utf8(before) + c@.subrange(kept as int, at as int) + c@.subrange(
            at as int,
            n as int,
        ) =~= encode_utf8(before) + c@.subrange(kept as int, n as int));
    }
    out
}

/// Replaces every occurrence of `search` in `content`, whatever the case of
/// its ASCII letters, by `replacement`.
pub fn case_insensitive_replace(content: &str, search: &str, replacement: &str) -> (r: String)
    ensures
        encode_utf8(r@) == replaced(
            content.spec_bytes(),
            search.spec_bytes(),
            replacement.spec_bytes(),
            false,
        ),
{
    replace_matches(content, search, replacement, false)
}

/// Computes the new content of a block in which `search` is to be replaced
/// by `replacement`: every occurrence is replaced, whether or not it is a
/// whole word.
pub fn replace_in_block(content: &str, search: &str, replacement: &str, case_sensitive: bool) -> (r:
    String)
    ensures
        encode_utf8(r@) == replaced(
            content.spec_bytes(),
            search.spec_bytes(),
            replacement.spec_bytes(),
            case_sensitive,
        ),
{
    if case_sensitive {
        replace_matches(content, search, replacement, true)
    } else {
        case_insensitive_replace(content, search, replacement)
    }
}

} // verus!
