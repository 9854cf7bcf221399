//! What holds of the groups of every search result.

use vstd::prelude::*;
use vstd::utf8::{decode_utf8_encode_utf8, encode_utf8, encode_utf8_valid_utf8, valid_utf8};
use crate::matcher::{lemma_occurrence_on_boundaries, lemma_spans_below_sound, match_spans};
use crate::snippet::{
    lemma_snippet_holds_match, lemma_snippet_is_text, lemma_snippet_length,
    lemma_trim_spares_clean_match, snippet_bytes, SNIPPET_CONTEXT,
};
use crate::text::{blank_width_at, blank_width_before};
use crate::aggregator::{
    body_count, body_match, body_matches, body_pass, group_index, group_index_from, is_query,
    lemma_body_count_grows, lemma_title_count_grows, match_count, search_result, title_count, title_matches, title_pass, with_matches, BlockRowView,
    PageRowView,
};
use crate::models::search::{GroupView, MatchView};

verus! {

/// The match was found in a block of the page.
pub open spec fn from_block(
    blocks: Seq<BlockRowView>,
    query: Seq<u8>,
    case_sensitive: bool,
    whole_word: bool,
    page_id: Seq<char>,
    m: MatchView,
) -> bool {
    exists|i: int|
        0 <= i < blocks.len() && (#[trigger] blocks[i]).page_id == page_id && body_matches(
            blocks[i],
            query,
            case_sensitive,
            whole_word,
        ).contains(m)
}

/// The match was found in the title of the page.
pub open spec fn from_title(
    pages: Seq<PageRowView>,
    query: Seq<u8>,
    case_sensitive: bool,
    whole_word: bool,
    page_id: Seq<char>,
    m: MatchView,
) -> bool {
    exists|j: int|
        0 <= j < pages.len() && (#[trigger] pages[j]).page_id == page_id && title_matches(
            pages[j],
            query,
            case_sensitive,
            whole_word,
        ).contains(m)
}

/// The groups are well formed: none is empty, no two belong to one page, and
/// each match was found in a block or in the title of the page of its group.
pub open spec fn well_grouped(
    groups: Seq<GroupView>,
    blocks: Seq<BlockRowView>,
    pages: Seq<PageRowView>,
    query: Seq<u8>,
    case_sensitive: bool,
    whole_word: bool,
) -> bool {
    &&& forall|g: int| 0 <= g < groups.len() ==> (#[trigger] groups[g]).matches.len() > 0
    &&& forall|g: int, h: int|
        0 <= g < h < groups.len() ==> (#[trigger] groups[g]).page_id != (
        #[trigger] groups[h]).page_id
    &&& forall|g: int, k: int|
        0 <= g < groups.len() && 0 <= k < groups[g].matches.len() ==> {
            ||| from_block(
                blocks,
                query,
                case_sensitive,
                whole_word,
                groups[g].page_id,
                #[trigger] groups[g].matches[k],
            )
            ||| from_title(
                pages,
                query,
                case_sensitive,
                whole_word,
                groups[g].page_id,
                groups[g].matches[k],
            )
        }
}

/// The number of matches in all groups together.
pub open spec fn group_total(groups: Seq<GroupView>) -> int
    decreases groups.len(),
{
    if groups.len() == 0 {
        0
    } else {
        group_total(groups.drop_last()) + groups.last().matches.len()
    }
}

/// What `group_index` finds: the first group of the page, where there is one.
pub proof fn lemma_group_index(groups: Seq<GroupView>, page_id: Seq<char>)
    ensures
        0 <= group_index(groups, page_id) <= groups.len(),
        group_index(groups, page_id) < groups.len() ==> groups[group_index(
            groups,
            page_id,
        )].page_id == page_id,
        forall|g: int|
            0 <= g < group_index(groups, page_id) ==> (#[trigger] groups[g]).page_id != page_id,
{
    lemma_group_index_from(groups, page_id, 0);
}

proof fn lemma_group_index_from(groups: Seq<GroupView>, page_id: Seq<char>, from: int)
    requires
        0 <= from <= groups.len(),
    ensures
        from <= group_index_from(groups, page_id, from) <= groups.len(),
        group_index_from(groups, page_id, from) < groups.len() ==> groups[group_index_from(
            groups,
            page_id,
            from,
        )].page_id == page_id,
        forall|g: int|
            from <= g < group_index_from(groups, page_id, from) ==> (#[trigger] groups[g]).page_id
                != page_id,
    decreases groups.len() - from,
{
    if from < groups.len() && groups[from].page_id != page_id {
        lemma_group_index_from(groups, page_id, from + 1);
    }
}

/// Adding matches that were found for a page keeps the groups well formed.
proof fn lemma_with_matches_grouped(
    groups: Seq<GroupView>,
    page_id: Seq<char>,
    title: Seq<char>,
    icon: Option<Seq<char>>,
    found: Seq<MatchView>,
    in_front: bool,
    blocks: Seq<BlockRowView>,
    pages: Seq<PageRowView>,
    query: Seq<u8>,
    case_sensitive: bool,
    whole_word: bool,
)
    requires
        well_grouped(groups, blocks, pages, query, case_sensitive, whole_word),
        forall|k: int|
            0 <= k < found.len() ==> {
                ||| from_block(
                    blocks,
                    query,
                    case_sensitive,
                    whole_word,
                    page_id,
                    #[trigger] found[k],
                )
                ||| from_title(pages, query, case_sensitive, whole_word, page_id, found[k])
            },
    ensures
        well_grouped(
            with_matches(groups, page_id, title, icon, found, in_front),
            blocks,
            pages,
            query,
            case_sensitive,
            whole_word,
        ),
{
    lemma_group_index(groups, page_id);
    let i = group_index(groups, page_id);
    let after = with_matches(groups, page_id, title, icon, found, in_front);
    if found.len() > 0 {
        assert forall|g: int, k: int|
            0 <= g < after.len() && 0 <= k < after[g].matches.len() implies {
            ||| from_block(
                blocks,
                query,
                case_sensitive,
                whole_word,
                after[g].page_id,
                #[trigger] after[g].matches[k],
            )
            ||| from_title(
                pages,
                query,
                case_sensitive,
                whole_word,
                after[g].page_id,
                after[g].matches[k],
            )
        } by {
            if g == i {
                if i < groups.len() {
                    let had = groups[i].matches;
                    if in_front {
                        if k < found.len() {
                            assert(after[g].matches[k] == found[k]);
                        } else {
                            assert(after[g].matches[k] == had[k - found.len()]);
                        }
                    } else {
                        if k < had.len() {
                            assert(after[g].matches[k] == had[k]);
                        } else {
                            assert(after[g].matches[k] == found[k - had.len()]);
                        }
                    }
                } else {
                    assert(after[g].matches[k] == found[k]);
                }
            } else {
                assert(after[g] == groups[g]);
            }
        }
        assert forall|g: int, h: int| 0 <= g < h < after.len() implies (#[trigger] after[g]).page_id
            != (#[trigger] after[h]).page_id by {
            if h < groups.len() {
                assert(after[g].page_id == groups[g].page_id);
                assert(after[h].page_id == groups[h].page_id);
            } else {
                assert(after[g] == groups[g]);
            }
        }
    }
}

/// The groups are well formed after any number of block rows.
proof fn lemma_body_pass_grouped(
    blocks: Seq<BlockRowView>,
    pages: Seq<PageRowView>,
    query: Seq<u8>,
    case_sensitive: bool,
    whole_word: bool,
    n: int,
)
    requires
        n <= blocks.len(),
    ensures
        well_grouped(
            body_pass(blocks, query, case_sensitive, whole_word, n),
            blocks,
            pages,
            query,
            case_sensitive,
            whole_word,
        ),
    decreases n,
{
    if n > 0 {
        lemma_body_pass_grouped(blocks, pages, query, case_sensitive, whole_word, n - 1);
        let row = blocks[n - 1];
        let found = body_matches(row, query, case_sensitive, whole_word);
        assert forall|k: int| 0 <= k < found.len() implies from_block(
            blocks,
            query,
            case_sensitive,
            whole_word,
            row.page_id,
            #[trigger] found[k],
        ) by {
            assert(found.contains(found[k]));
        }
        lemma_with_matches_grouped(
            body_pass(blocks, query, case_sensitive, whole_word, n - 1),
            row.page_id,
            row.page_title,
            row.page_icon,
            found,
            false,
            blocks,
            pages,
            query,
            case_sensitive,
            whole_word,
        );
    }
}

/// The groups are well formed after all block rows and any number of page titles.
proof fn lemma_title_pass_grouped(
    blocks: Seq<BlockRowView>,
    pages: Seq<PageRowView>,
    query: Seq<u8>,
    case_sensitive: bool,
    whole_word: bool,
    n: int,
)
    requires
        n <= pages.len(),
    ensures
        well_grouped(
            title_pass(blocks, pages, query, case_sensitive, whole_word, n),
            blocks,
            pages,
            query,
            case_sensitive,
            whole_word,
        ),
    decreases n,
{
    if n > 0 {
        lemma_title_pass_grouped(blocks, pages, query, case_sensitive, whole_word, n - 1);
        let page = pages[n - 1];
        let found = title_matches(page, query, case_sensitive, whole_word);
        assert forall|k: int| 0 <= k < found.len() implies from_title(
            pages,
            query,
            case_sensitive,
            whole_word,
            page.page_id,
            #[trigger] found[k],
        ) by {
            assert(found.contains(found[k]));
        }
        lemma_with_matches_grouped(
            title_pass(blocks, pages, query, case_sensitive, whole_word, n - 1),
            page.page_id,
            page.title,
            page.icon,
            found,
            true,
            blocks,
            pages,
            query,
            case_sensitive,
            whole_word,
        );
    } else {
        lemma_body_pass_grouped(
            blocks,
            pages,
            query,
            case_sensitive,
            whole_word,
            blocks.len() as int,
        );
    }
}

/// Every search result is well grouped: no group is empty, each page has at
/// most one group, and every match was found in a block or in the title of
/// the page of its group.
pub proof fn lemma_search_well_grouped(
    blocks: Seq<BlockRowView>,
    pages: Seq<PageRowView>,
    query: Seq<u8>,
    case_sensitive: bool,
    whole_word: bool,
)
    ensures
        well_grouped(
            search_result(blocks, pages, query, case_sensitive, whole_word).groups,
            blocks,
            pages,
            query,
            case_sensitive,
            whole_word,
        ),
{
    if is_query(query) {
        lemma_title_pass_grouped(
            blocks,
            pages,
            query,
            case_sensitive,
            whole_word,
            pages.len() as int,
        );
    }
}

/// A page that the store no longer holds, neither among the pages nor as the
/// owner of a block, has no group in a search result.
pub proof fn lemma_absent_page_has_no_group(
    blocks: Seq<BlockRowView>,
    pages: Seq<PageRowView>,
    query: Seq<u8>,
    case_sensitive: bool,
    whole_word: bool,
    page_id: Seq<char>,
)
    requires
        forall|i: int| 0 <= i < blocks.len() ==> (#[trigger] blocks[i]).page_id != page_id,
        forall|j: int| 0 <= j < pages.len() ==> (#[trigger] pages[j]).page_id != page_id,
    ensures
        forall|g: int|
            0 <= g < search_result(blocks, pages, query, case_sensitive, whole_word).groups.len()
                ==> (#[trigger] search_result(
                blocks,
                pages,
                query,
                case_sensitive,
                whole_word,
            ).groups[g]).page_id != page_id,
{
    lemma_search_well_grouped(blocks, pages, query, case_sensitive, whole_word);
    let groups = search_result(blocks, pages, query, case_sensitive, whole_word).groups;
    assert forall|g: int| 0 <= g < groups.len() implies (#[trigger] groups[g]).page_id
        != page_id by {
        let m = groups[g].matches[0];
        assert(from_block(blocks, query, case_sensitive, whole_word, groups[g].page_id, m)
            || from_title(pages, query, case_sensitive, whole_word, groups[g].page_id, m));
    }
}

/// Adding matches raises the number of matches in the groups by their number.
proof fn lemma_with_matches_total(
    groups: Seq<GroupView>,
    page_id: Seq<char>,
    title: Seq<char>,
    icon: Option<Seq<char>>,
    found: Seq<MatchView>,
    in_front: bool,
)
    ensures
        group_total(with_matches(groups, page_id, title, icon, found, in_front)) == group_total(
            groups,
        ) + found.len(),
{
    lemma_group_index(groups, page_id);
    let i = group_index(groups, page_id);
    if found.len() > 0 {
        if i < groups.len() {
            let changed = GroupView {
                matches: if in_front {
                    found + groups[i].matches
                } else {
                    groups[i].matches + found
                },
                ..groups[i]
            };
            lemma_update_total(groups, i, changed);
        } else {
            let added = GroupView { page_id, page_title: title, page_icon: icon, matches: found };
            assert(groups.push(added).drop_last() =~= groups);
        }
    }
}

proof fn lemma_update_total(groups: Seq<GroupView>, i: int, changed: GroupView)
    requires
        0 <= i < groups.len(),
    ensures
        group_total(groups.update(i, changed)) == group_total(groups) - groups[i].matches.len()
            + changed.matches.len(),
    decreases groups.len(),
{
    let after = groups.update(i, changed);
    if i == groups.len() - 1 {
        assert(after.drop_last() =~= groups.drop_last());
    } else {
        lemma_update_total(groups.drop_last(), i, changed);
        assert(after.drop_last() =~= groups.drop_last().update(i, changed));
    }
}

proof fn lemma_body_pass_total(
    blocks: Seq<BlockRowView>,
    query: Seq<u8>,
    case_sensitive: bool,
    whole_word: bool,
    n: int,
)
    ensures
        group_total(body_pass(blocks, query, case_sensitive, whole_word, n)) == body_count(
            blocks,
            query,
            case_sensitive,
            whole_word,
            n,
        ),
    decreases n,
{
    if n > 0 {
        lemma_body_pass_total(blocks, query, case_sensitive, whole_word, n - 1);
        let row = blocks[n - 1];
        lemma_with_matches_total(
            body_pass(blocks, query, case_sensitive, whole_word, n - 1),
            row.page_id,
            row.page_title,
            row.page_icon,
            body_matches(row, query, case_sensitive, whole_word),
            false,
        );
    }
}

proof fn lemma_title_pass_total(
    blocks: Seq<BlockRowView>,
    pages: Seq<PageRowView>,
    query: Seq<u8>,
    case_sensitive: bool,
    whole_word: bool,
    n: int,
)
    ensures
        group_total(title_pass(blocks, pages, query, case_sensitive, whole_word, n)) == body_count(
            blocks,
            query,
            case_sensitive,
            whole_word,
            blocks.len() as int,
        ) + title_count(pages, query, case_sensitive, whole_word, n),
    decreases n,
{
    if n > 0 {
        lemma_title_pass_total(blocks, pages, query, case_sensitive, whole_word, n - 1);
        let page = pages[n - 1];
        lemma_with_matches_total(
            title_pass(blocks, pages, query, case_sensitive, whole_word, n - 1),
            page.page_id,
            page.title,
            page.icon,
            title_matches(page, query, case_sensitive, whole_word),
            true,
        );
    } else {
        lemma_body_pass_total(blocks, query, case_sensitive, whole_word, blocks.len() as int);
    }
}

/// The total of a search result is the number of matches in its groups.
pub proof fn lemma_total_counts_groups(
    blocks: Seq<BlockRowView>,
    pages: Seq<PageRowView>,
    query: Seq<u8>,
    case_sensitive: bool,
    whole_word: bool,
)
    requires
        is_query(query) ==> match_count(blocks, pages, query, case_sensitive, whole_word)
            <= usize::MAX,
    ensures
        search_result(blocks, pages, query, case_sensitive, whole_word).total_matches
            == group_total(search_result(blocks, pages, query, case_sensitive, whole_word).groups),
{
    if is_query(query) {
        lemma_title_pass_total(
            blocks,
            pages,
            query,
            case_sensitive,
            whole_word,
            pages.len() as int,
        );
        lemma_body_count_grows(blocks, query, case_sensitive, whole_word, 0, blocks.len() as int);
        lemma_title_count_grows(pages, query, case_sensitive, whole_word, 0, pages.len() as int);
    } else {
        assert(group_total(Seq::<GroupView>::empty()) == 0);
    }
}

/// The matches in the blocks of a page among the first `n` block rows, in the
/// order of the rows.
pub open spec fn page_body_matches(
    blocks: Seq<BlockRowView>,
    query: Seq<u8>,
    case_sensitive: bool,
    whole_word: bool,
    page_id: Seq<char>,
    n: int,
) -> Seq<MatchView>
    decreases n,
{
    if n <= 0 {
        Seq::empty()
    } else {
        let earlier = page_body_matches(blocks, query, case_sensitive, whole_word, page_id, n - 1);
        if blocks[n - 1].page_id == page_id {
            earlier + body_matches(blocks[n - 1], query, case_sensitive, whole_word)
        } else {
            earlier
        }
    }
}

/// The matches in the title of a page among the first `n` page rows. Where
/// several rows carry the page, those of a later row stand first.
pub open spec fn page_title_matches(
    pages: Seq<PageRowView>,
    query: Seq<u8>,
    case_sensitive: bool,
    whole_word: bool,
    page_id: Seq<char>,
    n: int,
) -> Seq<MatchView>
    decreases n,
{
    if n <= 0 {
        Seq::empty()
    } else {
        let earlier = page_title_matches(pages, query, case_sensitive, whole_word, page_id, n - 1);
        if pages[n - 1].page_id == page_id {
            title_matches(pages[n - 1], query, case_sensitive, whole_word) + earlier
        } else {
            earlier
        }
    }
}

/// All matches of a page: those in its title, then those in its blocks.
pub open spec fn page_matches(
    blocks: Seq<BlockRowView>,
    pages: Seq<PageRowView>,
    query: Seq<u8>,
    case_sensitive: bool,
    whole_word: bool,
    page_id: Seq<char>,
) -> Seq<MatchView> {
    page_title_matches(pages, query, case_sensitive, whole_word, page_id, pages.len() as int)
        + page_body_matches(blocks, query, case_sensitive, whole_word, page_id, blocks.len() as int)
}

/// Each group holds what `held` gives for its page, and a page without a
/// group has nothing there.
pub open spec fn groups_hold(
    groups: Seq<GroupView>,
    held: spec_fn(Seq<char>) -> Seq<MatchView>,
) -> bool {
    &&& forall|g: int|
        0 <= g < groups.len() ==> (#[trigger] groups[g]).matches == held(groups[g].page_id)
    &&& forall|g: int, h: int|
        0 <= g < h < groups.len() ==> (#[trigger] groups[g]).page_id != (
        #[trigger] groups[h]).page_id
    &&& forall|page_id: Seq<char>|
        group_index(groups, page_id) == groups.len() ==> (#[trigger] held(page_id)).len() == 0
}

/// Adding the matches found for a page keeps each group in step with the
/// matches of its page.
proof fn lemma_with_matches_hold(
    groups: Seq<GroupView>,
    page_id: Seq<char>,
    title: Seq<char>,
    icon: Option<Seq<char>>,
    found: Seq<MatchView>,
    in_front: bool,
    before: spec_fn(Seq<char>) -> Seq<MatchView>,
    after: spec_fn(Seq<char>) -> Seq<MatchView>,
)
    requires
        groups_hold(groups, before),
        after(page_id) == if in_front {
            found + before(page_id)
        } else {
            before(page_id) + found
        },
        forall|other: Seq<char>| other != page_id ==> #[trigger] after(other) == before(other),
    ensures
        groups_hold(with_matches(groups, page_id, title, icon, found, in_front), after),
{
    lemma_group_index(groups, page_id);
    let i = group_index(groups, page_id);
    let next = with_matches(groups, page_id, title, icon, found, in_front);
    if found.len() == 0 {
        assert(found + before(page_id) =~= before(page_id));
        assert(before(page_id) + found =~= before(page_id));
        assert forall|g: int| 0 <= g < next.len() implies (#[trigger] next[g]).matches == after(
            next[g].page_id,
        ) by {
            assert(groups[g].matches == before(groups[g].page_id));
        }
        assert forall|x: Seq<char>| group_index(next, x) == next.len() implies (#[trigger] after(
            x,
        )).len() == 0 by {
            assert(before(x).len() == 0);
        }
    } else if i < groups.len() {
        assert forall|g: int| 0 <= g < next.len() implies (#[trigger] next[g]).matches == after(
            next[g].page_id,
        ) by {
            assert(groups[g].matches == before(groups[g].page_id));
            if g != i {
                assert(next[g] == groups[g]);
                if g < i {
                    assert(groups[g].page_id != groups[i].page_id);
                } else {
                    assert(groups[i].page_id != groups[g].page_id);
                }
            }
        }
        assert forall|g: int, h: int| 0 <= g < h < next.len() implies (#[trigger] next[g]).page_id
            != (#[trigger] next[h]).page_id by {
            assert(next[g].page_id == groups[g].page_id);
            assert(next[h].page_id == groups[h].page_id);
        }
        assert forall|x: Seq<char>| group_index(next, x) == next.len() implies (#[trigger] after(
            x,
        )).len() == 0 by {
            lemma_group_index(next, x);
            lemma_group_index(groups, x);
            assert(next[i].page_id == page_id);
            if group_index(groups, x) < groups.len() {
                let k = group_index(groups, x);
                assert(next[k].page_id == x);
            }
            assert(before(x).len() == 0);
        }
    } else {
        assert(before(page_id).len() == 0);
        assert(found + before(page_id) =~= found);
        assert(before(page_id) + found =~= found);
        assert forall|g: int| 0 <= g < next.len() implies (#[trigger] next[g]).matches == after(
            next[g].page_id,
        ) by {
            if g < groups.len() {
                assert(next[g] == groups[g]);
                assert(groups[g].matches == before(groups[g].page_id));
            }
        }
        assert forall|g: int, h: int| 0 <= g < h < next.len() implies (#[trigger] next[g]).page_id
            != (#[trigger] next[h]).page_id by {
            assert(next[g] == groups[g]);
            if h < groups.len() {
                assert(next[h] == groups[h]);
            }
        }
        assert forall|x: Seq<char>| group_index(next, x) == next.len() implies (#[trigger] after(
            x,
        )).len() == 0 by {
            lemma_group_index(next, x);
            lemma_group_index(groups, x);
            assert(next[groups.len() as int].page_id == page_id);
            if group_index(groups, x) < groups.len() {
                let k = group_index(groups, x);
                assert(next[k] == groups[k]);
            }
            assert(before(x).len() == 0);
        }
    }
}

/// The matches that the groups are to hold after `nb` block rows and `nt` page titles.
pub open spec fn held_after(
    blocks: Seq<BlockRowView>,
    pages: Seq<PageRowView>,
    query: Seq<u8>,
    case_sensitive: bool,
    whole_word: bool,
    nb: int,
    nt: int,
) -> spec_fn(Seq<char>) -> Seq<MatchView> {
    |page_id: Seq<char>|
        page_title_matches(pages, query, case_sensitive, whole_word, page_id, nt)
            + page_body_matches(blocks, query, case_sensitive, whole_word, page_id, nb)
}

proof fn lemma_body_pass_holds(
    blocks: Seq<BlockRowView>,
    pages: Seq<PageRowView>,
    query: Seq<u8>,
    case_sensitive: bool,
    whole_word: bool,
    n: int,
)
    ensures
        groups_hold(
            body_pass(blocks, query, case_sensitive, whole_word, n),
            held_after(blocks, pages, query, case_sensitive, whole_word, n, 0),
        ),
    decreases n,
{
    let after = held_after(blocks, pages, query, case_sensitive, whole_word, n, 0);
    if n > 0 {
        lemma_body_pass_holds(blocks, pages, query, case_sensitive, whole_word, n - 1);
        let before = held_after(blocks, pages, query, case_sensitive, whole_word, n - 1, 0);
        let row = blocks[n - 1];
        let found = body_matches(row, query, case_sensitive, whole_word);
        assert(after(row.page_id) =~= before(row.page_id) + found);
        assert forall|other: Seq<char>| other != row.page_id implies #[trigger] after(other)
            == before(other) by {
            assert(after(other) =~= before(other));
        }
        lemma_with_matches_hold(
            body_pass(blocks, query, case_sensitive, whole_word, n - 1),
            row.page_id,
            row.page_title,
            row.page_icon,
            found,
            false,
            before,
            after,
        );
    } else {
        let none = body_pass(blocks, query, case_sensitive, whole_word, n);
        assert forall|x: Seq<char>| group_index(none, x) == none.len() implies (#[trigger] after(
            x,
        )).len() == 0 by {
            lemma_body_matches_none(blocks, query, case_sensitive, whole_word, x, n);
        }
    }
}

proof fn lemma_body_matches_none(
    blocks: Seq<BlockRowView>,
    query: Seq<u8>,
    case_sensitive: bool,
    whole_word: bool,
    page_id: Seq<char>,
    n: int,
)
    requires
        n <= 0,
    ensures
        page_body_matches(blocks, query, case_sensitive, whole_word, page_id, n).len() == 0,
{
}

proof fn lemma_title_pass_holds(
    blocks: Seq<BlockRowView>,
    pages: Seq<PageRowView>,
    query: Seq<u8>,
    case_sensitive: bool,
    whole_word: bool,
    n: int,
)
    ensures
        groups_hold(
            title_pass(blocks, pages, query, case_sensitive, whole_word, n),
            held_after(
                blocks,
                pages,
                query,
                case_sensitive,
                whole_word,
                blocks.len() as int,
                if n < 0 {
                    0
                } else {
                    n
                },
            ),
        ),
    decreases n,
{
    let nb = blocks.len() as int;
    if n > 0 {
        lemma_title_pass_holds(blocks, pages, query, case_sensitive, whole_word, n - 1);
        let before = held_after(blocks, pages, query, case_sensitive, whole_word, nb, n - 1);
        let after = held_after(blocks, pages, query, case_sensitive, whole_word, nb, n);
        let page = pages[n - 1];
        let found = title_matches(page, query, case_sensitive, whole_word);
        assert(after(page.page_id) =~= found + before(page.page_id));
        assert forall|other: Seq<char>| other != page.page_id implies #[trigger] after(other)
            == before(other) by {
            assert(after(other) =~= before(other));
        }
        lemma_with_matches_hold(
            title_pass(blocks, pages, query, case_sensitive, whole_word, n - 1),
            page.page_id,
            page.title,
            page.icon,
            found,
            true,
            before,
            after,
        );
    } else {
        lemma_body_pass_holds(blocks, pages, query, case_sensitive, whole_word, nb);
    }
}

/// In a search result, the group of a page holds all matches of the page and
/// nothing else: first those in its title, then those in its blocks in the
/// order of the scan.
pub proof fn lemma_group_holds_page_matches(
    blocks: Seq<BlockRowView>,
    pages: Seq<PageRowView>,
    query: Seq<u8>,
    case_sensitive: bool,
    whole_word: bool,
    g: int,
)
    requires
        0 <= g < search_result(blocks, pages, query, case_sensitive, whole_word).groups.len(),
    ensures
        search_result(blocks, pages, query, case_sensitive, whole_word).groups[g].matches
            == page_matches(
            blocks,
            pages,
            query,
            case_sensitive,
            whole_word,
            search_result(blocks, pages, query, case_sensitive, whole_word).groups[g].page_id,
        ),
{
    lemma_title_pass_holds(blocks, pages, query, case_sensitive, whole_word, pages.len() as int);
}

/// A page without a group in the result of a search has no match, neither in
/// its title nor in its blocks.
pub proof fn lemma_page_without_group_has_no_match(
    blocks: Seq<BlockRowView>,
    pages: Seq<PageRowView>,
    query: Seq<u8>,
    case_sensitive: bool,
    whole_word: bool,
    page_id: Seq<char>,
)
    requires
        is_query(query),
        forall|g: int|
            0 <= g < search_result(blocks, pages, query, case_sensitive, whole_word).groups.len()
                ==> (#[trigger] search_result(
                blocks,
                pages,
                query,
                case_sensitive,
                whole_word,
            ).groups[g]).page_id != page_id,
    ensures
        page_matches(blocks, pages, query, case_sensitive, whole_word, page_id).len() == 0,
{
    lemma_title_pass_holds(blocks, pages, query, case_sensitive, whole_word, pages.len() as int);
    let groups = search_result(blocks, pages, query, case_sensitive, whole_word).groups;
    lemma_group_index(groups, page_id);
    let held = held_after(
        blocks,
        pages,
        query,
        case_sensitive,
        whole_word,
        blocks.len() as int,
        pages.len() as int,
    );
    assert(held(page_id).len() == 0);
}

/// The snippet of each match in a block holds the matched text, and is at
/// most as long as the match, the context on both sides and two ellipses.
/// This holds for a query that is text, and for a match that neither begins
/// nor ends with a blank.
pub proof fn lemma_body_snippet_holds_match(
    row: BlockRowView,
    query: Seq<u8>,
    case_sensitive: bool,
    whole_word: bool,
    i: int,
)
    requires
        valid_utf8(query),
        encode_utf8(row.content).len() <= usize::MAX,
        0 <= i < body_matches(row, query, case_sensitive, whole_word).len(),
        blank_width_at(
            encode_utf8(row.content),
            body_matches(row, query, case_sensitive, whole_word)[i].match_start as int,
        ) == 0,
        blank_width_before(
            encode_utf8(row.content),
            body_matches(row, query, case_sensitive, whole_word)[i].match_end as int,
        ) == 0,
    ensures
        ({
            let m = body_matches(row, query, case_sensitive, whole_word)[i];
            let snippet = encode_utf8(m.snippet);
            let len = m.match_end - m.match_start;
            &&& snippet.len() <= 2 * SNIPPET_CONTEXT + len + 6
            &&& exists|k: int|
                0 <= k && k + len <= snippet.len() && #[trigger] snippet.subrange(k, k + len)
                    == encode_utf8(row.content).subrange(
                    m.match_start as int,
                    m.match_end as int,
                )
        }),
{
    let bytes = encode_utf8(row.content);
    let spans = match_spans(bytes, query, case_sensitive, whole_word);
    let m = body_matches(row, query, case_sensitive, whole_word)[i];
    assert(m == body_match(row, spans[i]));
    let start = spans[i].0 as int;
    let len = spans[i].1 - spans[i].0;
    let context = SNIPPET_CONTEXT as int;
    encode_utf8_valid_utf8(row.content);
    lemma_spans_below_sound(bytes, query, case_sensitive, whole_word, bytes.len() as int);
    lemma_occurrence_on_boundaries(bytes, query, case_sensitive, start);
    lemma_snippet_is_text(bytes, start, len, context);
    decode_utf8_encode_utf8(snippet_bytes(bytes, start, len, context));
    lemma_snippet_length(bytes, start, len, context);
    lemma_trim_spares_clean_match(bytes, start, len, context);
    lemma_snippet_holds_match(bytes, start, len, context);
    let snippet = snippet_bytes(bytes, start, len, context);
    assert(encode_utf8(m.snippet) == snippet);
    let k = choose|k: int|
        0 <= k && k + len <= snippet.len() && #[trigger] snippet.subrange(k, k + len)
            == bytes.subrange(start, start + len);
    assert(snippet.subrange(k, k + len) == bytes.subrange(
        m.match_start as int,
        m.match_end as int,
    ));
}

/// The scan of the page titles keeps the groups that the scan of the blocks
/// made, each in its place: a page with matches in its title only comes
/// behind every page with a match in a block.
pub proof fn lemma_title_only_groups_come_last(
    blocks: Seq<BlockRowView>,
    pages: Seq<PageRowView>,
    query: Seq<u8>,
    case_sensitive: bool,
    whole_word: bool,
    n: int,
)
    ensures
        body_pass(blocks, query, case_sensitive, whole_word, blocks.len() as int).len()
            <= title_pass(blocks, pages, query, case_sensitive, whole_word, n).len(),
        forall|g: int|
            0 <= g < body_pass(
                blocks,
                query,
                case_sensitive,
                whole_word,
                blocks.len() as int,
            ).len() ==> (#[trigger] title_pass(
                blocks,
                pages,
                query,
                case_sensitive,
                whole_word,
                n,
            )[g]).page_id == body_pass(
                blocks,
                query,
                case_sensitive,
                whole_word,
                blocks.len() as int,
            )[g].page_id,
    decreases n,
{
    if n > 0 {
        lemma_title_only_groups_come_last(blocks, pages, query, case_sensitive, whole_word, n - 1);
        let earlier = title_pass(blocks, pages, query, case_sensitive, whole_word, n - 1);
        lemma_group_index(earlier, pages[n - 1].page_id);
    }
}

/// A query that holds nothing but blanks finds nothing.
pub proof fn lemma_blank_query_finds_nothing(
    blocks: Seq<BlockRowView>,
    pages: Seq<PageRowView>,
    query: Seq<u8>,
    case_sensitive: bool,
    whole_word: bool,
)
    requires
        !is_query(query),
    ensures
        search_result(blocks, pages, query, case_sensitive, whole_word).groups.len() == 0,
        search_result(blocks, pages, query, case_sensitive, whole_word).total_matches == 0,
{
}

} // verus!
