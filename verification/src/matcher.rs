//! The match finder: every place at which a query occurs in a text.

use vstd::prelude::*;
use vstd::string::StringSliceAdditionalSpecFns;
use vstd::utf8::{
    is_char_boundary, is_char_boundary_iff_not_is_continuation_byte,
    is_char_boundary_start_end_of_seq, valid_utf8,
};
use crate::boundary::{char_width, lemma_boundary_step};
use crate::text::{byte_is_alnum, bytes_agree, is_alnum, same_byte};

verus! {

/// The query occurs in the content at byte offset `at`.
pub open spec fn occurs_at(content: Seq<u8>, query: Seq<u8>, case_sensitive: bool, at: int) -> bool {
    &&& 0 <= at
    &&& at + query.len() <= content.len()
    &&& forall|k: int|
        0 <= k < query.len() ==> same_byte(content[at + k], #[trigger] query[k], case_sensitive)
}

/// Neither the byte before `start` nor the byte at `end` is an ASCII letter or
/// digit; a side at which the content ends passes.
pub open spec fn word_bounded(content: Seq<u8>, start: int, end: int) -> bool {
    &&& start <= 0 || !is_alnum(content[start - 1])
    &&& end >= content.len() || !is_alnum(content[end])
}

/// The span that starts at `at` is one that a search reports.
pub open spec fn reported_at(
    content: Seq<u8>,
    query: Seq<u8>,
    case_sensitive: bool,
    whole_word: bool,
    at: int,
) -> bool {
    &&& query.len() > 0
    &&& occurs_at(content, query, case_sensitive, at)
    &&& whole_word ==> word_bounded(content, at, at + query.len())
}

/// The reported spans that start below `limit`, in ascending order.
pub open spec fn spans_below(
    content: Seq<u8>,
    query: Seq<u8>,
    case_sensitive: bool,
    whole_word: bool,
    limit: int,
) -> Seq<(usize, usize)>
    decreases limit,
{
    if limit <= 0 {
        Seq::empty()
    } else {
        let earlier = spans_below(content, query, case_sensitive, whole_word, limit - 1);
        if reported_at(content, query, case_sensitive, whole_word, limit - 1) {
            earlier.push(((limit - 1) as usize, (limit - 1 + query.len()) as usize))
        } else {
            earlier
        }
    }
}

/// All reported spans of a content, in ascending order of their start.
pub open spec fn match_spans(
    content: Seq<u8>,
    query: Seq<u8>,
    case_sensitive: bool,
    whole_word: bool,
) -> Seq<(usize, usize)> {
    spans_below(content, query, case_sensitive, whole_word, content.len() as int)
}

/// Tests whether the query occurs at `at`.
pub(crate) fn matches_at(content: &[u8], query: &[u8], case_sensitive: bool, at: usize) -> (r: bool)
    requires
        at + query@.len() <= content@.len(),
    ensures
        r == occurs_at(content@, query@, case_sensitive, at as int),
{
    let n: usize = query.len();
    let total: usize = content.len();
    let mut k: usize = 0;
    while k < n
        invariant
            k <= n == query@.len(),
            at + n <= total == content@.len(),
            forall|j: int|
                0 <= j < k ==> same_byte(content@[at + j], #[trigger] query@[j], case_sensitive),
        decreases n - k,
    {
        if !bytes_agree(content[at + k], query[k], case_sensitive) {
            return false;
        }
        k += 1;
    }
    true
}

/// Tests the whole-word condition for the span from `start` to `end`.
fn is_word_bounded(content: &[u8], start: usize, end: usize) -> (r: bool)
    requires
        start <= end <= content@.len(),
    ensures
        r == word_bounded(content@, start as int, end as int),
{
    let before_ok = start == 0 || !byte_is_alnum(content[start - 1]);
    let after_ok = end >= content.len() || !byte_is_alnum(content[end]);
    before_ok && after_ok
}

/// Finds every occurrence of `query` in `content`, as byte spans in ascending
/// order of their start. A candidate is tried at every offset, so occurrences
/// of a repeating query that share bytes are each reported. An empty query
/// occurs nowhere.
pub fn find_all_matches(content: &str, query: &str, case_sensitive: bool, whole_word: bool) -> (r:
    Vec<(usize, usize)>)
    ensures
        r@ == match_spans(content.spec_bytes(), query.spec_bytes(), case_sensitive, whole_word),
        forall|i: int|
            0 <= i < r@.len() ==> (#[trigger] r@[i]).0 < r@[i].1 <= content.spec_bytes().len(),
{
    let c = content.as_bytes();
    let q = query.as_bytes();
    let mut found: Vec<(usize, usize)> = Vec::new();
    let n: usize = c.len();
    proof {
        lemma_spans_below_sound(c@, q@, case_sensitive, whole_word, n as int);
    }
    if q.len() == 0 || q.len() > n {
        proof {
            lemma_none_below(c@, q@, case_sensitive, whole_word, c@.len() as int);
        }
        return found;
    }
    let last: usize = n - q.len();
    let mut at: usize = 0;
    while at <= last
        invariant
            q@.len() > 0,
            last + q@.len() == c@.len() <= usize::MAX,
            at <= last + 1,
            found@ == spans_below(c@, q@, case_sensitive, whole_word, at as int),
        decreases last + 1 - at,
    {
        let end: usize = at + q.len();
        if matches_at(c, q, case_sensitive, at) && (!whole_word || is_word_bounded(c, at, end)) {
            found.push((at, end));
        }
        at += 1;
    }
    proof {
        lemma_none_between(c@, q@, case_sensitive, whole_word, at as int, c@.len() as int);
    }
    found
}

/// No span is reported where the query is empty or longer than the content.
proof fn lemma_none_below(
    content: Seq<u8>,
    query: Seq<u8>,
    case_sensitive: bool,
    whole_word: bool,
    limit: int,
)
    requires
        query.len() == 0 || query.len() > content.len(),
    ensures
        spans_below(content, query, case_sensitive, whole_word, limit) == Seq::<
            (usize, usize),
        >::empty(),
    decreases limit,
{
    if limit > 0 {
        lemma_none_below(content, query, case_sensitive, whole_word, limit - 1);
    }
}

/// No span starts so late that the query would run past the end of the content.
proof fn lemma_none_between(
    content: Seq<u8>,
    query: Seq<u8>,
    case_sensitive: bool,
    whole_word: bool,
    from: int,
    limit: int,
)
    requires
        0 <= from <= limit,
        from + query.len() > content.len(),
    ensures
        spans_below(content, query, case_sensitive, whole_word, limit) == spans_below(
            content,
            query,
            case_sensitive,
            whole_word,
            from,
        ),
    decreases limit - from,
{
    if limit > from {
        lemma_none_between(content, query, case_sensitive, whole_word, from, limit - 1);
    }
}

/// Two byte strings of one length that agree byte for byte under the case mode.
pub open spec fn equal_under(a: Seq<u8>, b: Seq<u8>, case_sensitive: bool) -> bool {
    &&& a.len() == b.len()
    &&& forall|k: int| 0 <= k < a.len() ==> same_byte(#[trigger] a[k], b[k], case_sensitive)
}

/// What `spans_below` holds: its spans start below the limit at reported
/// offsets, in strictly ascending order, and each is as long as the query.
pub proof fn lemma_spans_below_sound(
    content: Seq<u8>,
    query: Seq<u8>,
    case_sensitive: bool,
    whole_word: bool,
    limit: int,
)
    requires
        content.len() <= usize::MAX,
    ensures
        forall|i: int|
            0 <= i < spans_below(content, query, case_sensitive, whole_word, limit).len() ==> {
                let span = #[trigger] spans_below(
                    content,
                    query,
                    case_sensitive,
                    whole_word,
                    limit,
                )[i];
                &&& 0 <= span.0 < limit
                &&& span.1 == span.0 + query.len()
                &&& reported_at(content, query, case_sensitive, whole_word, span.0 as int)
            },
        forall|i: int, j: int|
            0 <= i < j < spans_below(content, query, case_sensitive, whole_word, limit).len()
                ==> (#[trigger] spans_below(content, query, case_sensitive, whole_word, limit)[i]).0
                < (#[trigger] spans_below(content, query, case_sensitive, whole_word, limit)[j]).0,
        spans_below(content, query, case_sensitive, whole_word, limit).len() <= if limit
            < 0 {
            0
        } else {
            limit
        },
    decreases limit,
{
    if limit > 0 {
        lemma_spans_below_sound(content, query, case_sensitive, whole_word, limit - 1);
    }
}

/// Every reported offset below the limit starts one of the spans of `spans_below`.
pub proof fn lemma_spans_below_complete(
    content: Seq<u8>,
    query: Seq<u8>,
    case_sensitive: bool,
    whole_word: bool,
    limit: int,
    at: int,
)
    requires
        content.len() <= usize::MAX,
        0 <= at < limit,
        reported_at(content, query, case_sensitive, whole_word, at),
    ensures
        exists|i: int|
            0 <= i < spans_below(content, query, case_sensitive, whole_word, limit).len()
                && (#[trigger] spans_below(content, query, case_sensitive, whole_word, limit)[i]).0
                == at,
    decreases limit,
{
    let spans = spans_below(content, query, case_sensitive, whole_word, limit);
    if at == limit - 1 {
        assert(spans[spans.len() - 1].0 == at);
    } else {
        lemma_spans_below_complete(content, query, case_sensitive, whole_word, limit - 1, at);
        let earlier = spans_below(content, query, case_sensitive, whole_word, limit - 1);
        let i = choose|i: int| 0 <= i < earlier.len() && (#[trigger] earlier[i]).0 == at;
        assert(spans[i].0 == at);
    }
}

/// Each reported span lies inside the content, and the bytes that it covers
/// equal the query under the case mode of the search.
pub proof fn lemma_span_equals_query(
    content: Seq<u8>,
    query: Seq<u8>,
    case_sensitive: bool,
    whole_word: bool,
    i: int,
)
    requires
        content.len() <= usize::MAX,
        0 <= i < match_spans(content, query, case_sensitive, whole_word).len(),
    ensures
        ({
            let span = match_spans(content, query, case_sensitive, whole_word)[i];
            &&& span.0 < span.1 <= content.len()
            &&& equal_under(
                content.subrange(span.0 as int, span.1 as int),
                query,
                case_sensitive,
            )
        }),
{
    lemma_spans_below_sound(content, query, case_sensitive, whole_word, content.len() as int);
    let span = match_spans(content, query, case_sensitive, whole_word)[i];
    assert(reported_at(content, query, case_sensitive, whole_word, span.0 as int));
    let part = content.subrange(span.0 as int, span.1 as int);
    assert forall|k: int| 0 <= k < part.len() implies same_byte(
        #[trigger] part[k],
        query[k],
        case_sensitive,
    ) by {
        assert(same_byte(content[span.0 + k], query[k], case_sensitive));
    }
}

/// In whole-word mode no reported span has an ASCII letter or digit right
/// before its start or right after its end.
pub proof fn lemma_whole_word_spans_bounded(
    content: Seq<u8>,
    query: Seq<u8>,
    case_sensitive: bool,
    i: int,
)
    requires
        content.len() <= usize::MAX,
        0 <= i < match_spans(content, query, case_sensitive, true).len(),
    ensures
        ({
            let span = match_spans(content, query, case_sensitive, true)[i];
            &&& span.0 > 0 ==> !is_alnum(content[span.0 - 1])
            &&& span.1 < content.len() ==> !is_alnum(content[span.1 as int])
        }),
{
    lemma_spans_below_sound(content, query, case_sensitive, true, content.len() as int);
    let span = match_spans(content, query, case_sensitive, true)[i];
    assert(reported_at(content, query, case_sensitive, true, span.0 as int));
}

/// A search that ignores case reports every span that the case-sensitive
/// search reports.
pub proof fn lemma_folding_keeps_spans(
    content: Seq<u8>,
    query: Seq<u8>,
    whole_word: bool,
    i: int,
)
    requires
        content.len() <= usize::MAX,
        0 <= i < match_spans(content, query, true, whole_word).len(),
    ensures
        match_spans(content, query, false, whole_word).contains(
            match_spans(content, query, true, whole_word)[i],
        ),
{
    let n = content.len() as int;
    lemma_spans_below_sound(content, query, true, whole_word, n);
    lemma_spans_below_sound(content, query, false, whole_word, n);
    let span = match_spans(content, query, true, whole_word)[i];
    assert(reported_at(content, query, true, whole_word, span.0 as int));
    assert(reported_at(content, query, false, whole_word, span.0 as int));
    lemma_spans_below_complete(content, query, false, whole_word, n, span.0 as int);
    let folded = match_spans(content, query, false, whole_word);
    let j = choose|j: int| 0 <= j < folded.len() && (#[trigger] folded[j]).0 == span.0;
    assert(folded[j] == span);
}

/// A search that ignores case reports at least as many spans as the
/// case-sensitive search for the same query.
pub proof fn lemma_folding_finds_no_fewer(
    content: Seq<u8>,
    query: Seq<u8>,
    whole_word: bool,
)
    ensures
        match_spans(content, query, true, whole_word).len() <= match_spans(
            content,
            query,
            false,
            whole_word,
        ).len(),
{
    lemma_folding_count_below(content, query, whole_word, content.len() as int);
}

proof fn lemma_folding_count_below(
    content: Seq<u8>,
    query: Seq<u8>,
    whole_word: bool,
    limit: int,
)
    ensures
        spans_below(content, query, true, whole_word, limit).len() <= spans_below(
            content,
            query,
            false,
            whole_word,
            limit,
        ).len(),
    decreases limit,
{
    if limit > 0 {
        lemma_folding_count_below(content, query, whole_word, limit - 1);
    }
}

/// Where a query that is itself text occurs in a text, the occurrence begins
/// and ends on character boundaries of the content.
pub proof fn lemma_occurrence_on_boundaries(
    content: Seq<u8>,
    query: Seq<u8>,
    case_sensitive: bool,
    at: int,
)
    requires
        valid_utf8(content),
        valid_utf8(query),
        query.len() > 0,
        occurs_at(content, query, case_sensitive, at),
    ensures
        is_char_boundary(content, at),
        is_char_boundary(content, at + query.len()),
{
    is_char_boundary_start_end_of_seq(query);
    lemma_boundary_step(query, 0);
    assert(same_byte(content[at + 0], query[0], case_sensitive));
    is_char_boundary_iff_not_is_continuation_byte(content, at);
    lemma_occurrence_walk(content, query, case_sensitive, at, 0);
}

proof fn lemma_occurrence_walk(
    content: Seq<u8>,
    query: Seq<u8>,
    case_sensitive: bool,
    at: int,
    done: int,
)
    requires
        valid_utf8(content),
        valid_utf8(query),
        occurs_at(content, query, case_sensitive, at),
        0 <= done <= query.len(),
        is_char_boundary(query, done),
        is_char_boundary(content, at + done),
    ensures
        is_char_boundary(content, at + query.len()),
    decreases query.len() - done,
{
    if done < query.len() {
        lemma_boundary_step(query, done);
        lemma_boundary_step(content, at + done);
        assert(same_byte(content[at + done], query[done], case_sensitive));
        assert(char_width(content[at + done]) == char_width(query[done]));
        lemma_occurrence_walk(
            content,
            query,
            case_sensitive,
            at,
            done + char_width(query[done]),
        );
    }
}

} // verus!
