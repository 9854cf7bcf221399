//! Pages: the documents of the store.

use vstd::prelude::*;
use crate::models::ids::{hyphenated, is_random_uid, Uid};
use crate::models::time::{now, Timestamp};

verus! {

/// A page. Pages form a tree: one without a parent is a root.
#[derive(Debug, Clone)]
pub struct Page {
    /// The identifier of the page, as hyphenated text.
    pub id: String,
    pub title: String,
    pub icon: Option<String>,
    pub cover: Option<String>,
    /// The page under which this one is nested.
    pub parent_id: Option<String>,
    /// Archived pages are left out of listings and of searches.
    pub is_archived: bool,
    pub created_at: Timestamp,
    pub updated_at: Timestamp,
}

impl Page {
    /// A new root page with the given title: not archived, without icon or
    /// cover, created and last changed now, under a new random identifier.
    pub fn new(title: String) -> (r: Page)
        ensures
            r.title == title,
            r.icon.is_none(),
            r.cover.is_none(),
            r.parent_id.is_none(),
            !r.is_archived,
            r.created_at == r.updated_at,
            exists|bits: u128| is_random_uid(bits) && r.id@ == #[trigger] hyphenated(bits),
    {
        let now = now();
        let id = Uid::random();
        Page {
            id: id.to_text(),
            title,
            icon: None,
            cover: None,
            parent_id: None,
            is_archived: false,
            created_at: now,
            updated_at: now,
        }
    }

    /// The page, nested under the given parent.
    pub fn with_parent(self, parent_id: String) -> (r: Page)
        ensures
            r == (Page { parent_id: Some(parent_id), ..self }),
    {
        let mut page = self;
        page.parent_id = Some(parent_id);
        page
    }

    /// The page, with the given icon.
    pub fn with_icon(self, icon: String) -> (r: Page)
        ensures
            r == (Page { icon: Some(icon), ..self }),
    {
        let mut page = self;
        page.icon = Some(icon);
        page
    }
}

} // verus!
