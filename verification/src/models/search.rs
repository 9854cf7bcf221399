//! What a search returns: matches, grouped by the page that owns them.

use vstd::prelude::*;

verus! {

/// One occurrence of the query, in a block or in a page title.
#[derive(Debug, Clone)]
pub struct SearchMatch {
    /// The block that holds the match; `title-` and the page id for a match in a title.
    pub block_id: String,
    /// The whole text in which the match was found.
    pub content: String,
    /// The type label of the block; `Title` for a match in a title.
    pub block_type: String,
    /// The byte offset at which the match begins.
    pub match_start: usize,
    /// The byte offset just behind the match.
    pub match_end: usize,
    /// The excerpt shown for the match.
    pub snippet: String,
    /// The position of the block among its siblings; -1 for a match in a title.
    pub order: i32,
}

/// The matches of one page.
#[derive(Debug, Clone)]
pub struct SearchFileGroup {
    pub page_id: String,
    pub page_title: String,
    pub page_icon: Option<String>,
    /// The matches of the page: those in its title first, then those in its blocks.
    pub matches: Vec<SearchMatch>,
}

/// The result of one search.
#[derive(Debug, Clone)]
pub struct SearchResponse {
    /// One group for each page with at least one match.
    pub groups: Vec<SearchFileGroup>,
    /// The number of matches in all groups together.
    pub total_matches: usize,
}

/// The value of a [`SearchMatch`].
pub struct MatchView {
    pub block_id: Seq<char>,
    pub content: Seq<char>,
    pub block_type: Seq<char>,
    pub match_start: usize,
    pub match_end: usize,
    pub snippet: Seq<char>,
    pub order: i32,
}

/// The value of a [`SearchFileGroup`].
pub struct GroupView {
    pub page_id: Seq<char>,
    pub page_title: Seq<char>,
    pub page_icon: Option<Seq<char>>,
    pub matches: Seq<MatchView>,
}

/// The value of a [`SearchResponse`].
pub struct ResponseView {
    pub groups: Seq<GroupView>,
    pub total_matches: usize,
}

/// The value of an optional text.
pub open spec fn text_of(text: Option<String>) -> Option<Seq<char>> {
    match text {
        Some(t) => Some(t@),
        None => None,
    }
}

/// The values of a list of matches.
pub open spec fn match_views(matches: Seq<SearchMatch>) -> Seq<MatchView> {
    matches.map_values(|m: SearchMatch| m@)
}

/// The values of a list of groups.
pub open spec fn group_views(groups: Seq<SearchFileGroup>) -> Seq<GroupView> {
    groups.map_values(|g: SearchFileGroup| g@)
}

impl View for SearchMatch {
    type V = MatchView;

    open spec fn view(&self) -> MatchView {
        MatchView {
            block_id: self.block_id@,
            content: self.content@,
            block_type: self.block_type@,
            match_start: self.match_start,
            match_end: self.match_end,
            snippet: self.snippet@,
            order: self.order,
        }
    }
}

impl View for SearchFileGroup {
    type V = GroupView;

    open spec fn view(&self) -> GroupView {
        GroupView {
            page_id: self.page_id@,
            page_title: self.page_title@,
            page_icon: text_of(self.page_icon),
            matches: match_views(self.matches@),
        }
    }
}

impl View for SearchResponse {
    type V = ResponseView;

    open spec fn view(&self) -> ResponseView {
        ResponseView { groups: group_views(self.groups@), total_matches: self.total_matches }
    }
}

} // verus!
