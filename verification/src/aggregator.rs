//! The search aggregator: scans every block and every page title for a query
//! and groups the matches by page.

use vstd::prelude::*;
use vstd::string::{StringExecFns, StringSliceAdditionalSpecFns};
use vstd::utf8::{decode_utf8, encode_utf8, encode_utf8_decode_utf8};
use crate::matcher::{find_all_matches, match_spans};
use crate::models::search::{
    group_views, match_views, text_of, GroupView, MatchView, ResponseView, SearchFileGroup,
    SearchMatch, SearchResponse,
};
use crate::snippet::{build_snippet, snippet_bytes, SNIPPET_CONTEXT};
use crate::text::{is_blank, trimmed};

verus! {

/// A block as the store hands it to a search, together with the title and
/// the icon of the page that owns it.
#[derive(Debug, Clone)]
pub struct BlockRow {
    pub block_id: String,
    pub page_id: String,
    pub block_type: String,
    pub content: String,
    pub order: i32,
    pub page_title: String,
    pub page_icon: Option<String>,
}

/// A page as the store hands it to a search.
#[derive(Debug, Clone)]
pub struct PageRow {
    pub page_id: String,
    pub title: String,
    pub icon: Option<String>,
}

/// The value of a [`BlockRow`].
pub struct BlockRowView {
    pub block_id: Seq<char>,
    pub page_id: Seq<char>,
    pub block_type: Seq<char>,
    pub content: Seq<char>,
    pub order: i32,
    pub page_title: Seq<char>,
    pub page_icon: Option<Seq<char>>,
}

/// The value of a [`PageRow`].
pub struct PageRowView {
    pub page_id: Seq<char>,
    pub title: Seq<char>,
    pub icon: Option<Seq<char>>,
}

impl View for BlockRow {
    type V = BlockRowView;

    open spec fn view(&self) -> BlockRowView {
        BlockRowView {
            block_id: self.block_id@,
            page_id: self.page_id@,
            block_type: self.block_type@,
            content: self.content@,
            order: self.order,
            page_title: self.page_title@,
            page_icon: text_of(self.page_icon),
        }
    }
}

impl View for PageRow {
    type V = PageRowView;

    open spec fn view(&self) -> PageRowView {
        PageRowView { page_id: self.page_id@, title: self.title@, icon: text_of(self.icon) }
    }
}

/// The values of a list of block rows.
pub open spec fn block_views(rows: Seq<BlockRow>) -> Seq<BlockRowView> {
    rows.map_values(|r: BlockRow| r@)
}

/// The values of a list of page rows.
pub open spec fn page_views(rows: Seq<PageRow>) -> Seq<PageRowView> {
    rows.map_values(|r: PageRow| r@)
}

/// The match that a search reports for one span of a block's content.
pub open spec fn body_match(row: BlockRowView, span: (usize, usize)) -> MatchView {
    MatchView {
        block_id: row.block_id,
        content: row.content,
        block_type: row.block_type,
        match_start: span.0,
        match_end: span.1,
        snippet: decode_utf8(
            snippet_bytes(
                encode_utf8(row.content),
                span.0 as int,
                span.1 - span.0,
                SNIPPET_CONTEXT as int,
            ),
        ),
        order: row.order,
    }
}

/// The match that a search reports for one span of a page's title. It stands
/// for no block: its snippet is the title as it is.
pub open spec fn title_match(page: PageRowView, span: (usize, usize)) -> MatchView {
    MatchView {
        block_id: "title-"@ + page.page_id,
        content: page.title,
        block_type: "Title"@,
        match_start: span.0,
        match_end: span.1,
        snippet: page.title,
        order: -1i32,
    }
}

/// The matches of one block, in ascending order of their start.
pub open spec fn body_matches(
    row: BlockRowView,
    query: Seq<u8>,
    case_sensitive: bool,
    whole_word: bool,
) -> Seq<MatchView> {
    match_spans(encode_utf8(row.content), query, case_sensitive, whole_word).map_values(
        |span: (usize, usize)| body_match(row, span),
    )
}

/// The matches of one page title, in ascending order of their start.
pub open spec fn title_matches(
    page: PageRowView,
    query: Seq<u8>,
    case_sensitive: bool,
    whole_word: bool,
) -> Seq<MatchView> {
    match_spans(encode_utf8(page.title), query, case_sensitive, whole_word).map_values(
        |span: (usize, usize)| title_match(page, span),
    )
}

/// The index of the first group at or after `from` that belongs to the page,
/// or the number of groups where there is none.
pub open spec fn group_index_from(groups: Seq<GroupView>, page_id: Seq<char>, from: int) -> int
    decreases groups.len() - from,
{
    if from >= groups.len() {
        groups.len() as int
    } else if groups[from].page_id == page_id {
        from
    } else {
        group_index_from(groups, page_id, from + 1)
    }
}

/// The index of the group of a page, or the number of groups where the page has none.
pub open spec fn group_index(groups: Seq<GroupView>, page_id: Seq<char>) -> int {
    group_index_from(groups, page_id, 0)
}

/// The groups once the matches `found` of a page are added. Nothing changes
/// where `found` is empty. A page that has a group gets the matches behind
/// those it has, or before them where `in_front` is set; a page without one
/// gets a new group behind all others, with the title and icon given.
pub open spec fn with_matches(
    groups: Seq<GroupView>,
    page_id: Seq<char>,
    title: Seq<char>,
    icon: Option<Seq<char>>,
    found: Seq<MatchView>,
    in_front: bool,
) -> Seq<GroupView> {
    let i = group_index(groups, page_id);
    if found.len() == 0 {
        groups
    } else if i < groups.len() {
        groups.update(
            i,
            GroupView {
                matches: if in_front {
                    found + groups[i].matches
                } else {
                    groups[i].matches + found
                },
                ..groups[i]
            },
        )
    } else {
        groups.push(GroupView { page_id, page_title: title, page_icon: icon, matches: found })
    }
}

/// The groups after the first `n` block rows are scanned.
pub open spec fn body_pass(
    blocks: Seq<BlockRowView>,
    query: Seq<u8>,
    case_sensitive: bool,
    whole_word: bool,
    n: int,
) -> Seq<GroupView>
    decreases n,
{
    if n <= 0 {
        Seq::empty()
    } else {
        let row = blocks[n - 1];
        with_matches(
            body_pass(blocks, query, case_sensitive, whole_word, n - 1),
            row.page_id,
            row.page_title,
            row.page_icon,
            body_matches(row, query, case_sensitive, whole_word),
            false,
        )
    }
}

/// The groups after all block rows and then the first `n` page titles are scanned.
pub open spec fn title_pass(
    blocks: Seq<BlockRowView>,
    pages: Seq<PageRowView>,
    query: Seq<u8>,
    case_sensitive: bool,
    whole_word: bool,
    n: int,
) -> Seq<GroupView>
    decreases n,
{
    if n <= 0 {
        body_pass(blocks, query, case_sensitive, whole_word, blocks.len() as int)
    } else {
        let page = pages[n - 1];
        with_matches(
            title_pass(blocks, pages, query, case_sensitive, whole_word, n - 1),
            page.page_id,
            page.title,
            page.icon,
            title_matches(page, query, case_sensitive, whole_word),
            true,
        )
    }
}

/// The number of matches in the first `n` block rows.
pub open spec fn body_count(
    blocks: Seq<BlockRowView>,
    query: Seq<u8>,
    case_sensitive: bool,
    whole_word: bool,
    n: int,
) -> int
    decreases n,
{
    if n <= 0 {
        0
    } else {
        body_count(blocks, query, case_sensitive, whole_word, n - 1) + match_spans(
            encode_utf8(blocks[n - 1].content),
            query,
            case_sensitive,
            whole_word,
        ).len()
    }
}

/// The number of matches in the first `n` page titles.
pub open spec fn title_count(
    pages: Seq<PageRowView>,
    query: Seq<u8>,
    case_sensitive: bool,
    whole_word: bool,
    n: int,
) -> int
    decreases n,
{
    if n <= 0 {
        0
    } else {
        title_count(pages, query, case_sensitive, whole_word, n - 1) + match_spans(
            encode_utf8(pages[n - 1].title),
            query,
            case_sensitive,
            whole_word,
        ).len()
    }
}

/// The number of matches in all block rows and all page titles.
pub open spec fn match_count(
    blocks: Seq<BlockRowView>,
    pages: Seq<PageRowView>,
    query: Seq<u8>,
    case_sensitive: bool,
    whole_word: bool,
) -> int {
    body_count(blocks, query, case_sensitive, whole_word, blocks.len() as int) + title_count(
        pages,
        query,
        case_sensitive,
        whole_word,
        pages.len() as int,
    )
}

/// Whether a query asks for anything: one that holds only blanks does not.
pub open spec fn is_query(query: Seq<u8>) -> bool {
    trimmed(query).len() > 0
}

/// What a search returns. A query of blanks finds nothing. Otherwise the
/// block rows are scanned in the order given, then the page titles; a page
/// gets its group when its first match is found, so pages with a match in a
/// block come first, in the order of their first such match, and pages with
/// matches in the title only come behind them.
pub open spec fn search_result(
    blocks: Seq<BlockRowView>,
    pages: Seq<PageRowView>,
    query: Seq<u8>,
    case_sensitive: bool,
    whole_word: bool,
) -> ResponseView {
    if is_query(query) {
        ResponseView {
            groups: title_pass(blocks, pages, query, case_sensitive, whole_word, pages.len() as int),
            total_matches: match_count(blocks, pages, query, case_sensitive, whole_word) as usize,
        }
    } else {
        ResponseView { groups: Seq::empty(), total_matches: 0 }
    }
}

/// Builds the matches of one block.
fn matches_in_block(row: &BlockRow, query: &str, case_sensitive: bool, whole_word: bool) -> (r: Vec<
    SearchMatch,
>)
    ensures
        match_views(r@) == body_matches(row@, query.spec_bytes(), case_sensitive, whole_word),
{
    let content = row.content.as_str();
    let spans = find_all_matches(content, query, case_sensitive, whole_word);
    let mut found: Vec<SearchMatch> = Vec::new();
    let mut i: usize = 0;
    while i < spans.len()
        invariant
            i <= spans@.len(),
            content@ == row.content@,
            forall|k: int| 0 <= k < spans@.len() ==> (#[trigger] spans@[k]).0 < spans@[k].1,
            found@.len() == i,
            forall|k: int| 0 <= k < i ==> (#[trigger] found@[k])@ == body_match(row@, spans@[k]),
        decreases spans@.len() - i,
    {
        let (start, end) = spans[i];
        let snippet = build_snippet(content, start, end - start, SNIPPET_CONTEXT);
        proof {
            encode_utf8_decode_utf8(snippet@);
        }
        found.push(
            SearchMatch {
                block_id: row.block_id.clone(),
                content: row.content.clone(),
                block_type: row.block_type.clone(),
                match_start: start,
                match_end: end,
                snippet,
                order: row.order,
            },
        );
        i += 1;
    }
    assert(match_views(found@) =~= body_matches(
        row@,
        query.spec_bytes(),
        case_sensitive,
        whole_word,
    ));
    found
}

/// Builds the matches of one page title.
fn matches_in_title(page: &PageRow, query: &str, case_sensitive: bool, whole_word: bool) -> (r: Vec<
    SearchMatch,
>)
    ensures
        match_views(r@) == title_matches(page@, query.spec_bytes(), case_sensitive, whole_word),
{
    let spans = find_all_matches(page.title.as_str(), query, case_sensitive, whole_word);
    let mut found: Vec<SearchMatch> = Vec::new();
    let mut i: usize = 0;
    while i < spans.len()
        invariant
            i <= spans@.len(),
            found@.len() == i,
            forall|k: int| 0 <= k < i ==> (#[trigger] found@[k])@ == title_match(page@, spans@[k]),
        decreases spans@.len() - i,
    {
        let (start, end) = spans[i];
        let mut block_id = String::from_str("title-");
        block_id.append(page.page_id.as_str());
        found.push(
            SearchMatch {
                block_id,
                content: page.title.clone(),
                block_type: String::from_str("Title"),
                match_start: start,
                match_end: end,
                snippet: page.title.clone(),
                order: -1,
            },
        );
        i += 1;
    }
    assert(match_views(found@) =~= title_matches(
        page@,
        query.spec_bytes(),
        case_sensitive,
        whole_word,
    ));
    found
}

/// Finds the group of a page.
fn find_group(groups: &Vec<SearchFileGroup>, page_id: &String) -> (i: usize)
    ensures
        i == group_index(group_views(groups@), page_id@),
{
    let mut i: usize = 0;
    while i < groups.len()
        invariant
            i <= groups@.len(),
            group_index_from(group_views(groups@), page_id@, i as int) == group_index(
                group_views(groups@),
                page_id@,
            ),
        decreases groups@.len() - i,
    {
        if groups[i].page_id == *page_id {
            return i;
        }
        i += 1;
    }
    i
}

/// Adds the matches of a page to its group, or to a new group behind the others.
fn add_matches(
    groups: &mut Vec<SearchFileGroup>,
    page_id: &String,
    title: &String,
    icon: &Option<String>,
    found: Vec<SearchMatch>,
    in_front: bool,
)
    ensures
        group_views(final(groups)@) == with_matches(
            group_views(old(groups)@),
            page_id@,
            title@,
            text_of(*icon),
            match_views(found@),
            in_front,
        ),
{
    if found.len() == 0 {
        return ;
    }
    let i = find_group(groups, page_id);
    let ghost before = groups@;
    if i < groups.len() {
        if in_front {
            let mut combined = found;
            combined.append(&mut groups[i].matches);
            groups[i].matches = combined;
            assert(match_views(groups@[i as int].matches@) =~= match_views(found@) + match_views(
                before[i as int].matches@,
            ));
        } else {
            let mut rest = found;
            groups[i].matches.append(&mut rest);
            assert(match_views(groups@[i as int].matches@) =~= match_views(
                before[i as int].matches@,
            ) + match_views(found@));
        }
        assert(group_views(groups@) =~= with_matches(
            group_views(before),
            page_id@,
            title@,
            text_of(*icon),
            match_views(found@),
            in_front,
        ));
    } else {
        groups.push(
            SearchFileGroup {
                page_id: page_id.clone(),
                page_title: title.clone(),
                page_icon: icon.clone(),
                matches: found,
            },
        );
        assert(group_views(groups@) =~= with_matches(
            group_views(before),
            page_id@,
            title@,
            text_of(*icon),
            match_views(found@),
            in_front,
        ));
    }
}

/// Searches every block and every page title for `query`.
///
/// `blocks` holds the blocks of the pages that are not archived, in the order
/// in which they are to be scanned: pages by their last change, newest first,
/// and the blocks of a page by their order. `pages` holds those pages.
pub fn search_blocks(
    blocks: &Vec<BlockRow>,
    pages: &Vec<PageRow>,
    query: &str,
    case_sensitive: bool,
    whole_word: bool,
) -> (r: SearchResponse)
    requires
        is_query(query.spec_bytes()) ==> match_count(
            block_views(blocks@),
            page_views(pages@),
            query.spec_bytes(),
            case_sensitive,
            whole_word,
        ) <= usize::MAX,
    ensures
        r@ == search_result(
            block_views(blocks@),
            page_views(pages@),
            query.spec_bytes(),
            case_sensitive,
            whole_word,
        ),
{
    let mut groups: Vec<SearchFileGroup> = Vec::new();
    let mut total: usize = 0;
    if is_blank(query) {
        assert(group_views(groups@) =~= Seq::<GroupView>::empty());
        return SearchResponse { groups, total_matches: total };
    }
    let ghost q = query.spec_bytes();
    let ghost rows = block_views(blocks@);
    let ghost titles = page_views(pages@);
    assert(group_views(groups@) =~= Seq::<GroupView>::empty());
    let mut i: usize = 0;
    while i < blocks.len()
        invariant
            i <= blocks@.len(),
            q == query.spec_bytes(),
            rows == block_views(blocks@),
            titles == page_views(pages@),
            match_count(rows, titles, q, case_sensitive, whole_word) <= usize::MAX,
            group_views(groups@) == body_pass(rows, q, case_sensitive, whole_word, i as int),
            total == body_count(rows, q, case_sensitive, whole_word, i as int),
        decreases blocks@.len() - i,
    {
        let row = &blocks[i];
        let found = matches_in_block(row, query, case_sensitive, whole_word);
        proof {
            lemma_body_count_grows(rows, q, case_sensitive, whole_word, i + 1, rows.len() as int);
            lemma_title_count_grows(titles, q, case_sensitive, whole_word, 0, titles.len() as int);
            assert(rows[i as int] == row@);
            assert(match_views(found@).len() == found@.len());
        }
        total = total + found.len();
        add_matches(&mut groups, &row.page_id, &row.page_title, &row.page_icon, found, false);
        i += 1;
    }
    let mut j: usize = 0;
    while j < pages.len()
        invariant
            j <= pages@.len(),
            q == query.spec_bytes(),
            rows == block_views(blocks@),
            titles == page_views(pages@),
            match_count(rows, titles, q, case_sensitive, whole_word) <= usize::MAX,
            group_views(groups@) == title_pass(
                rows,
                titles,
                q,
                case_sensitive,
                whole_word,
                j as int,
            ),
            total == body_count(rows, q, case_sensitive, whole_word, rows.len() as int)
                + title_count(titles, q, case_sensitive, whole_word, j as int),
        decreases pages@.len() - j,
    {
        let page = &pages[j];
        let found = matches_in_title(page, query, case_sensitive, whole_word);
        proof {
            lemma_title_count_grows(
                titles,
                q,
                case_sensitive,
                whole_word,
                j + 1,
                titles.len() as int,
            );
            assert(titles[j as int] == page@);
            assert(match_views(found@).len() == found@.len());
        }
        total = total + found.len();
        add_matches(&mut groups, &page.page_id, &page.title, &page.icon, found, true);
        j += 1;
    }
    SearchResponse { groups, total_matches: total }
}

/// The count of matches in block rows does not fall as more rows are scanned.
pub proof fn lemma_body_count_grows(
    blocks: Seq<BlockRowView>,
    query: Seq<u8>,
    case_sensitive: bool,
    whole_word: bool,
    n: int,
    m: int,
)
    requires
        0 <= n <= m,
    ensures
        0 <= body_count(blocks, query, case_sensitive, whole_word, n) <= body_count(
            blocks,
            query,
            case_sensitive,
            whole_word,
            m,
        ),
    decreases m + n,
{
    if n < m {
        lemma_body_count_grows(blocks, query, case_sensitive, whole_word, n, m - 1);
    } else if n > 0 {
        lemma_body_count_grows(blocks, query, case_sensitive, whole_word, n - 1, m - 1);
    }
}

/// The count of matches in page titles does not fall as more titles are scanned.
pub proof fn lemma_title_count_grows(
    pages: Seq<PageRowView>,
    query: Seq<u8>,
    case_sensitive: bool,
    whole_word: bool,
    n: int,
    m: int,
)
    requires
        0 <= n <= m,
    ensures
        0 <= title_count(pages, query, case_sensitive, whole_word, n) <= title_count(
            pages,
            query,
            case_sensitive,
            whole_word,
            m,
        ),
    decreases m + n,
{
    if n < m {
        lemma_title_count_grows(pages, query, case_sensitive, whole_word, n, m - 1);
    } else if n > 0 {
        lemma_title_count_grows(pages, query, case_sensitive, whole_word, n - 1, m - 1);
    }
}

} // verus!
