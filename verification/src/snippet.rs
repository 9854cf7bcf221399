//! The snippet builder: a bounded excerpt of a text around one match.

use vstd::prelude::*;
use vstd::string::{StringExecFns, StringSliceAdditionalSpecFns};
use vstd::utf8::{
    encode_utf8, encode_utf8_valid_utf8, is_ascii_chars_encode_utf8, is_char_boundary,
    is_char_boundary_iff_not_is_continuation_byte, is_char_boundary_start_end_of_seq,
    valid_utf8, valid_utf8_concat, valid_utf8_split,
};
use crate::boundary::{lemma_boundary_in_prefix, lemma_encode_concat, slice_between};
use crate::text::{
    blank_width_at, blank_width_before, lemma_drop_blanks_stops, lemma_skip_blanks_stops,
    lemma_trim_bounds, lemma_trim_on_boundaries, trim, trim_end, trim_start, trimmed,
};

verus! {

/// The number of bytes of context that a search result shows on each side of a match.
pub const SNIPPET_CONTEXT: usize = 40;

/// The bytes of the marker that stands where a snippet leaves text out: three full stops.
pub open spec fn ellipsis() -> Seq<u8> {
    seq![0x2eu8, 0x2eu8, 0x2eu8]
}

/// Where the context before a match begins: `context` bytes before the match,
/// or at the start of the text where fewer precede it.
pub open spec fn cut_start(match_start: int, context: int) -> int {
    if match_start - context > 0 {
        match_start - context
    } else {
        0
    }
}

/// Where the context after a match ends: `context` bytes after the match, or
/// at the end of the text where fewer follow it.
pub open spec fn cut_end(len: int, match_start: int, match_len: int, context: int) -> int {
    if match_start + match_len + context < len {
        match_start + match_len + context
    } else {
        len
    }
}

/// The first character boundary at or after `at`.
pub open spec fn boundary_at_or_after(s: Seq<u8>, at: int) -> int
    decreases s.len() - at,
{
    if at >= s.len() || is_char_boundary(s, at) {
        at
    } else {
        boundary_at_or_after(s, at + 1)
    }
}

/// The last character boundary at or before `at`.
pub open spec fn boundary_at_or_before(s: Seq<u8>, at: int) -> int
    decreases at,
{
    if at <= 0 || is_char_boundary(s, at) {
        at
    } else {
        boundary_at_or_before(s, at - 1)
    }
}

/// Where the window of a snippet begins: at the first character that lies
/// wholly behind the cut before the match.
pub open spec fn window_start(s: Seq<u8>, match_start: int, match_len: int, context: int) -> int {
    let first = cut_start(match_start, context);
    let last = cut_end(s.len() as int, match_start, match_len, context);
    boundary_at_or_after(
        s,
        if first < last {
            first
        } else {
            last
        },
    )
}

/// Where the window of a snippet ends: after the last character that lies
/// wholly before the cut behind the match.
pub open spec fn window_end(s: Seq<u8>, match_start: int, match_len: int, context: int) -> int {
    let from = window_start(s, match_start, match_len, context);
    let to = boundary_at_or_before(s, cut_end(s.len() as int, match_start, match_len, context));
    if to < from {
        from
    } else {
        to
    }
}

/// The snippet for a match: the window without the blanks at its ends, with
/// an ellipsis on each side on which the text goes on beyond the cut.
pub open spec fn snippet_bytes(s: Seq<u8>, match_start: int, match_len: int, context: int) -> Seq<
    u8,
> {
    let window = s.subrange(
        window_start(s, match_start, match_len, context),
        window_end(s, match_start, match_len, context),
    );
    let before = if cut_start(match_start, context) > 0 {
        ellipsis()
    } else {
        Seq::empty()
    };
    let after = if cut_end(s.len() as int, match_start, match_len, context) < s.len() {
        ellipsis()
    } else {
        Seq::empty()
    };
    before + trimmed(window) + after
}

pub proof fn lemma_boundary_at_or_after(s: Seq<u8>, at: int)
    requires
        valid_utf8(s),
        0 <= at <= s.len(),
    ensures
        at <= boundary_at_or_after(s, at) <= s.len(),
        is_char_boundary(s, boundary_at_or_after(s, at)),
    decreases s.len() - at,
{
    is_char_boundary_start_end_of_seq(s);
    if !(at >= s.len() || is_char_boundary(s, at)) {
        lemma_boundary_at_or_after(s, at + 1);
    }
}

pub proof fn lemma_boundary_at_or_before(s: Seq<u8>, at: int)
    requires
        valid_utf8(s),
        0 <= at <= s.len(),
    ensures
        0 <= boundary_at_or_before(s, at) <= at,
        is_char_boundary(s, boundary_at_or_before(s, at)),
    decreases at,
{
    is_char_boundary_start_end_of_seq(s);
    if !(at <= 0 || is_char_boundary(s, at)) {
        lemma_boundary_at_or_before(s, at - 1);
    }
}

/// The window of a snippet lies inside the text, between the two cuts, and
/// begins and ends on character boundaries.
pub proof fn lemma_window_bounds(s: Seq<u8>, match_start: int, match_len: int, context: int)
    requires
        valid_utf8(s),
        0 <= match_start,
        0 <= match_len,
        0 <= context,
    ensures
        0 <= window_start(s, match_start, match_len, context) <= window_end(
            s,
            match_start,
            match_len,
            context,
        ) <= s.len(),
        is_char_boundary(s, window_start(s, match_start, match_len, context)),
        is_char_boundary(s, window_end(s, match_start, match_len, context)),
        window_end(s, match_start, match_len, context) - window_start(
            s,
            match_start,
            match_len,
            context,
        ) <= 2 * context + match_len,
{
    let first = cut_start(match_start, context);
    let last = cut_end(s.len() as int, match_start, match_len, context);
    let low = if first < last {
        first
    } else {
        last
    };
    lemma_boundary_at_or_after(s, low);
    lemma_boundary_at_or_before(s, last);
}

/// No character boundary lies between `at` and the first boundary at or after it.
pub proof fn lemma_boundary_after_is_first(s: Seq<u8>, at: int, other: int)
    requires
        at <= other <= s.len(),
        is_char_boundary(s, other),
    ensures
        boundary_at_or_after(s, at) <= other,
    decreases other - at,
{
    if !(at >= s.len() || is_char_boundary(s, at)) {
        lemma_boundary_after_is_first(s, at + 1, other);
    }
}

/// No character boundary lies between the last boundary at or before `at` and `at`.
pub proof fn lemma_boundary_before_is_last(s: Seq<u8>, at: int, other: int)
    requires
        0 <= other <= at,
        is_char_boundary(s, other),
    ensures
        other <= boundary_at_or_before(s, at),
    decreases at - other,
{
    if !(at <= 0 || is_char_boundary(s, at)) {
        lemma_boundary_before_is_last(s, at - 1, other);
    }
}

/// A snippet is at most as long as the match, the context on both sides and
/// two ellipses together.
pub proof fn lemma_snippet_length(s: Seq<u8>, match_start: int, match_len: int, context: int)
    requires
        valid_utf8(s),
        0 <= match_start,
        0 <= match_len,
        0 <= context,
    ensures
        snippet_bytes(s, match_start, match_len, context).len() <= 2 * context + match_len + 6,
{
    lemma_window_bounds(s, match_start, match_len, context);
    let window = s.subrange(
        window_start(s, match_start, match_len, context),
        window_end(s, match_start, match_len, context),
    );
    lemma_trim_bounds(window);
}

/// A snippet of a text is itself text: its bytes are valid UTF-8.
pub proof fn lemma_snippet_is_text(s: Seq<u8>, match_start: int, match_len: int, context: int)
    requires
        valid_utf8(s),
        0 <= match_start,
        0 <= match_len,
        0 <= context,
    ensures
        valid_utf8(snippet_bytes(s, match_start, match_len, context)),
{
    lemma_window_bounds(s, match_start, match_len, context);
    let from = window_start(s, match_start, match_len, context);
    let to = window_end(s, match_start, match_len, context);
    let window = s.subrange(from, to);
    lemma_boundary_in_prefix(s, from, to);
    valid_utf8_split(s.subrange(0, to), from);
    assert(window =~= s.subrange(0, to).subrange(from, to));
    lemma_trim_bounds(window);
    lemma_trim_on_boundaries(window);
    lemma_boundary_in_prefix(window, trim_start(window), trim_end(window));
    valid_utf8_split(window.subrange(0, trim_end(window)), trim_start(window));
    assert(trimmed(window) =~= window.subrange(0, trim_end(window)).subrange(
        trim_start(window),
        trim_end(window),
    ));
    let dots = seq!['.', '.', '.'];
    assert(encode_utf8(dots) =~= ellipsis()) by {
        is_ascii_chars_encode_utf8(dots);
    }
    encode_utf8_valid_utf8(dots);
    assert(valid_utf8(Seq::<u8>::empty()));
    let before = if cut_start(match_start, context) > 0 {
        ellipsis()
    } else {
        Seq::empty()
    };
    let after = if cut_end(s.len() as int, match_start, match_len, context) < s.len() {
        ellipsis()
    } else {
        Seq::empty()
    };
    valid_utf8_concat(before, trimmed(window));
    valid_utf8_concat(before + trimmed(window), after);
}

/// The trim of the window of a snippet removes no byte of the match: the
/// blanks at the ends of the window all lie outside it.
pub open spec fn trim_spares_match(s: Seq<u8>, match_start: int, match_len: int, context: int) -> bool {
    let from = window_start(s, match_start, match_len, context);
    let window = s.subrange(from, window_end(s, match_start, match_len, context));
    &&& from + trim_start(window) <= match_start
    &&& match_start + match_len <= from + trim_end(window)
}

/// A snippet holds the whole match wherever the trim of its window spares the match.
pub proof fn lemma_snippet_holds_match(s: Seq<u8>, match_start: int, match_len: int, context: int)
    requires
        valid_utf8(s),
        0 <= match_start,
        0 <= match_len,
        0 <= context,
        trim_spares_match(s, match_start, match_len, context),
    ensures
        exists|k: int|
            0 <= k && k + match_len <= snippet_bytes(s, match_start, match_len, context).len()
                && #[trigger] snippet_bytes(s, match_start, match_len, context).subrange(
                k,
                k + match_len,
            ) == s.subrange(match_start, match_start + match_len),
{
    lemma_window_bounds(s, match_start, match_len, context);
    let from = window_start(s, match_start, match_len, context);
    let to = window_end(s, match_start, match_len, context);
    let window = s.subrange(from, to);
    lemma_trim_bounds(window);
    let before = if cut_start(match_start, context) > 0 {
        ellipsis()
    } else {
        Seq::empty()
    };
    let snippet = snippet_bytes(s, match_start, match_len, context);
    let k = before.len() + (match_start - from - trim_start(window));
    assert(snippet.subrange(k, k + match_len) =~= s.subrange(
        match_start,
        match_start + match_len,
    ));
}

/// The trim spares every match that lies inside the text on character
/// boundaries and neither begins nor ends with a blank.
pub proof fn lemma_trim_spares_clean_match(
    s: Seq<u8>,
    match_start: int,
    match_len: int,
    context: int,
)
    requires
        valid_utf8(s),
        0 <= match_start,
        0 < match_len,
        0 <= context,
        match_start + match_len <= s.len(),
        is_char_boundary(s, match_start),
        is_char_boundary(s, match_start + match_len),
        blank_width_at(s, match_start) == 0,
        blank_width_before(s, match_start + match_len) == 0,
    ensures
        trim_spares_match(s, match_start, match_len, context),
{
    lemma_window_bounds(s, match_start, match_len, context);
    let first = cut_start(match_start, context);
    let last = cut_end(s.len() as int, match_start, match_len, context);
    let low = if first < last {
        first
    } else {
        last
    };
    let match_end = match_start + match_len;
    lemma_boundary_after_is_first(s, low, match_start);
    lemma_boundary_before_is_last(s, last, match_end);
    let from = window_start(s, match_start, match_len, context);
    let to = window_end(s, match_start, match_len, context);
    let window = s.subrange(from, to);
    lemma_boundary_in_prefix(s, from, to);
    valid_utf8_split(s.subrange(0, to), from);
    assert(window =~= s.subrange(0, to).subrange(from, to));
    is_char_boundary_start_end_of_seq(window);
    if match_start - from < window.len() {
        is_char_boundary_iff_not_is_continuation_byte(s, match_start);
        is_char_boundary_iff_not_is_continuation_byte(window, match_start - from);
    }
    if match_end - from < window.len() {
        is_char_boundary_iff_not_is_continuation_byte(s, match_end);
        is_char_boundary_iff_not_is_continuation_byte(window, match_end - from);
    }
    assert(blank_width_at(window, match_start - from) == 0);
    assert(blank_width_before(window, match_end - from) == 0);
    lemma_skip_blanks_stops(window, 0, match_start - from);
    lemma_drop_blanks_stops(window, trim_start(window), window.len() as int, match_end - from);
}

/// Computes [`cut_end`] without overflow.
fn cut_end_of(len: usize, match_start: usize, match_len: usize, context: usize) -> (r: usize)
    ensures
        r == cut_end(len as int, match_start as int, match_len as int, context as int),
{
    if match_start >= len {
        return len;
    }
    let room: usize = len - match_start;
    if match_len >= room {
        return len;
    }
    let room_after: usize = room - match_len;
    if context >= room_after {
        return len;
    }
    match_start + match_len + context
}

/// Builds the excerpt of `content` that is shown for the match of `match_len`
/// bytes at `match_start`: up to `context` bytes on each side of the match,
/// cut at character boundaries, without the blanks at its ends, and with
/// `...` on each side on which text was left out.
pub fn build_snippet(content: &str, match_start: usize, match_len: usize, context: usize) -> (r:
    String)
    ensures
        encode_utf8(r@) == snippet_bytes(
            content.spec_bytes(),
            match_start as int,
            match_len as int,
            context as int,
        ),
{
    let ghost bytes = content.spec_bytes();
    let len: usize = content.as_bytes().len();
    proof {
        encode_utf8_valid_utf8(content@);
        is_char_boundary_start_end_of_seq(bytes);
        lemma_window_bounds(bytes, match_start as int, match_len as int, context as int);
    }
    let first: usize = if match_start > context {
        match_start - context
    } else {
        0
    };
    let last: usize = cut_end_of(len, match_start, match_len, context);
    let mut from: usize = if first < last {
        first
    } else {
        last
    };
    while from < len && !content.is_char_boundary(from)
        invariant
            from <= len == bytes.len(),
            bytes == content.spec_bytes(),
            boundary_at_or_after(bytes, from as int) == window_start(
                bytes,
                match_start as int,
                match_len as int,
                context as int,
            ),
        decreases len - from,
    {
        from += 1;
    }
    let mut to: usize = last;
    while to > 0 && !content.is_char_boundary(to)
        invariant
            to <= len == bytes.len(),
            bytes == content.spec_bytes(),
            boundary_at_or_before(bytes, to as int) == boundary_at_or_before(bytes, last as int),
        decreases to,
    {
        to -= 1;
    }
    if to < from {
        to = from;
    }
    let window = slice_between(content, from, to);
    let body = trim(window);
    let mut out = String::new();
    if first > 0 {
        out.append("...");
    }
    let ghost before = out@;
    out.append(body);
    let ghost middle = out@;
    if last < len {
        out.append("...");
    }
    proof {
        reveal_strlit("...");
        let dots = "..."@;
        assert(encode_utf8(dots) =~= ellipsis()) by {
            assert(dots[0] == '.' && dots[1] == '.' && dots[2] == '.');
            is_ascii_chars_encode_utf8(dots);
        }
        assert(encode_utf8(Seq::<char>::empty()) =~= Seq::<u8>::empty());
        lemma_encode_concat(before, body@);
        lemma_encode_concat(middle, if last < len {
            dots
        } else {
            Seq::<char>::empty()
        });
        assert(middle + Seq::<char>::empty() =~= middle);
        assert(Seq::<char>::empty() + body@ =~= body@);
        assert(encode_utf8(middle) + Seq::<u8>::empty() =~= encode_utf8(middle));
        assert(Seq::<u8>::empty() + encode_utf8(body@) =~= encode_utf8(body@));
    }
    out
}

} // verus!
