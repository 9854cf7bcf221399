//! Blocks: the ordered units of content of a page.

use vstd::prelude::*;
use crate::models::ids::{is_random_uid, Uid};
use crate::models::time::{now, Timestamp};

verus! {

/// What kind of content a block holds.
#[derive(Debug, Clone, PartialEq)]
pub enum BlockType {
    Text,
    Heading1,
    Heading2,
    Heading3,
    BulletList,
    NumberedList,
    Todo { checked: bool },
    Code { language: String },
    Quote,
    Divider,
    SubPage { page_id: Uid },
    PageLink { page_id: Uid },
}

/// A block of a page. Blocks may be nested; among the blocks of a page that
/// share a parent, `order` gives the position.
#[derive(Debug, Clone)]
pub struct Block {
    pub id: Uid,
    pub page_id: Uid,
    pub block_type: BlockType,
    pub content: String,
    pub parent_id: Option<Uid>,
    pub order: i32,
    pub created_at: Timestamp,
    pub updated_at: Timestamp,
}

impl Block {
    /// A new block of the given page: at the top level, in first position,
    /// created and last changed now, under a new random identifier.
    pub fn new(page_id: Uid, block_type: BlockType, content: String) -> (r: Block)
        ensures
            r.page_id == page_id,
            r.block_type == block_type,
            r.content == content,
            r.parent_id.is_none(),
            r.order == 0,
            r.created_at == r.updated_at,
            is_random_uid(r.id.bits),
    {
        let now = now();
        Block {
            id: Uid::random(),
            page_id,
            block_type,
            content,
            parent_id: None,
            order: 0,
            created_at: now,
            updated_at: now,
        }
    }

    /// The block, nested under the given parent block.
    pub fn with_parent(self, parent_id: Uid) -> (r: Block)
        ensures
            r == (Block { parent_id: Some(parent_id), ..self }),
    {
        let mut block = self;
        block.parent_id = Some(parent_id);
        block
    }

    /// The block, at the given position among its siblings.
    pub fn with_order(self, order: i32) -> (r: Block)
        ensures
            r == (Block { order, ..self }),
    {
        let mut block = self;
        block.order = order;
        block
    }
}

} // verus!
