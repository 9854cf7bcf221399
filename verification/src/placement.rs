//! Where a new block goes: behind the last of its siblings.

use vstd::prelude::*;
use vstd::string::StringExecFns;
use crate::models::block::{Block, BlockType};
use crate::models::ids::{hyphenated, is_random_uid, parsed_uid, uid_of, uid_text, Uid};
use crate::models::search::text_of;

verus! {

/// Why a block cannot be created.
#[derive(Debug, Clone, Copy, PartialEq, Eq)]
pub enum BlockError {
    /// The text given for the page is no identifier.
    InvalidPageId,
    /// The text given for the parent block is no identifier.
    InvalidParentId,
}

/// Whether a block has the given parent, where the parent is given as text
/// and a block at the top level has none. The text is taken as it is
/// written: only the hyphenated lower-case form names a parent.
pub open spec fn is_sibling(block: Block, parent: Option<Seq<char>>) -> bool {
    uid_text(block.parent_id) == parent
}

/// The highest order among the siblings in the first `n` blocks, where there is a sibling.
pub open spec fn highest_order(blocks: Seq<Block>, parent: Option<Seq<char>>, n: int) -> Option<
    int,
>
    decreases n,
{
    if n <= 0 {
        None
    } else {
        let earlier = highest_order(blocks, parent, n - 1);
        let block = blocks[n - 1];
        if !is_sibling(block, parent) {
            earlier
        } else if earlier.is_some() && earlier.unwrap() >= block.order {
            earlier
        } else {
            Some(block.order as int)
        }
    }
}

/// The order of a new block under the given parent: one more than the
/// highest among its siblings, or 0 where it is the first.
pub open spec fn next_order_of(blocks: Seq<Block>, parent: Option<Seq<char>>) -> int {
    match highest_order(blocks, parent, blocks.len() as int) {
        Some(highest) => highest + 1,
        None => 0,
    }
}

/// The highest order is that of a sibling, and no sibling has a higher one.
pub proof fn lemma_highest_order(blocks: Seq<Block>, parent: Option<Seq<char>>, n: int)
    requires
        0 <= n <= blocks.len(),
    ensures
        highest_order(blocks, parent, n).is_none() <==> forall|i: int|
            0 <= i < n ==> !is_sibling(#[trigger] blocks[i], parent),
        highest_order(blocks, parent, n).is_some() ==> exists|i: int|
            0 <= i < n && is_sibling(#[trigger] blocks[i], parent) && blocks[i].order
                == highest_order(blocks, parent, n).unwrap(),
        forall|i: int|
            0 <= i < n && is_sibling(#[trigger] blocks[i], parent) ==> blocks[i].order
                <= highest_order(blocks, parent, n).unwrap(),
    decreases n,
{
    if n > 0 {
        lemma_highest_order(blocks, parent, n - 1);
        let earlier = highest_order(blocks, parent, n - 1);
        if earlier.is_some() {
            let i = choose|i: int|
                0 <= i < n - 1 && is_sibling(#[trigger] blocks[i], parent) && blocks[i].order
                    == earlier.unwrap();
            assert(is_sibling(blocks[i], parent));
        }
        if is_sibling(blocks[n - 1], parent) {
            assert(is_sibling(blocks[n - 1], parent) && blocks[n - 1].order == blocks[n
                - 1].order);
        }
    }
}

/// The order of a new block is unused among its siblings.
pub proof fn lemma_next_order_is_free(blocks: Seq<Block>, parent: Option<Seq<char>>)
    ensures
        forall|i: int|
            0 <= i < blocks.len() && is_sibling(#[trigger] blocks[i], parent) ==> blocks[i].order
                < next_order_of(blocks, parent),
{
    lemma_highest_order(blocks, parent, blocks.len() as int);
}

/// Tests whether a block has the given parent.
fn has_parent(block: &Block, parent_id: &Option<String>) -> (r: bool)
    ensures
        r == is_sibling(*block, text_of(*parent_id)),
{
    match (&block.parent_id, parent_id) {
        (None, None) => true,
        (Some(id), Some(text)) => id.to_text() == *text,
        _ => false,
    }
}

/// Computes the order for a new block under `parent_id` among the blocks of its page.
pub fn next_order(existing: &Vec<Block>, parent_id: &Option<String>) -> (r: i32)
    requires
        next_order_of(existing@, text_of(*parent_id)) <= i32::MAX,
    ensures
        r == next_order_of(existing@, text_of(*parent_id)),
{
    let ghost parent = text_of(*parent_id);
    let mut highest: Option<i32> = None;
    let mut i: usize = 0;
    while i < existing.len()
        invariant
            i <= existing@.len(),
            parent == text_of(*parent_id),
            highest.is_some() == highest_order(existing@, parent, i as int).is_some(),
            highest.is_some() ==> highest.unwrap() == highest_order(
                existing@,
                parent,
                i as int,
            ).unwrap(),
        decreases existing@.len() - i,
    {
        let block = &existing[i];
        if has_parent(block, parent_id) {
            highest =
            match highest {
                Some(h) => if h >= block.order {
                    Some(h)
                } else {
                    Some(block.order)
                },
                None => Some(block.order),
            };
        }
        i += 1;
    }
    match highest {
        Some(h) => h + 1,
        None => 0,
    }
}

/// What creating a block gives, for the identifiers read from the two texts.
pub open spec fn new_block_outcome(
    page: Option<Uid>,
    parent_given: bool,
    parent: Option<Uid>,
) -> Result<(Uid, Option<Uid>), BlockError> {
    match page {
        None => Err(BlockError::InvalidPageId),
        Some(page_id) => if parent_given && parent.is_none() {
            Err(BlockError::InvalidParentId)
        } else if parent_given {
            Ok((page_id, parent))
        } else {
            Ok((page_id, None))
        },
    }
}

/// The identifier that a text names, where a text is given and names one.
pub open spec fn parsed_parent(parent_id: Option<String>) -> Option<Uid> {
    match parent_id {
        Some(text) => uid_of(parsed_uid(text@)),
        None => None,
    }
}

/// Makes the block that is to be added to a page: under a new identifier,
/// behind the last of its siblings. `existing` holds the blocks that the page
/// has. A page or parent text that is no identifier is refused, the page first.
pub fn new_block(
    page_id: &str,
    block_type: BlockType,
    content: String,
    parent_id: Option<String>,
    existing: &Vec<Block>,
) -> (r: Result<Block, BlockError>)
    requires
        next_order_of(existing@, text_of(parent_id)) <= i32::MAX,
    ensures
        match r {
            Ok(block) => {
                &&& new_block_outcome(
                    uid_of(parsed_uid(page_id@)),
                    parent_id.is_some(),
                    parsed_parent(parent_id),
                ) == Ok::<(Uid, Option<Uid>), BlockError>((block.page_id, block.parent_id))
                &&& block.block_type == block_type
                &&& block.content == content
                &&& block.order == next_order_of(existing@, text_of(parent_id))
                &&& block.created_at == block.updated_at
                &&& is_random_uid(block.id.bits)
            },
            Err(e) => new_block_outcome(
                uid_of(parsed_uid(page_id@)),
                parent_id.is_some(),
                parsed_parent(parent_id),
            ) == Err::<(Uid, Option<Uid>), BlockError>(e),
        },
{
    let page = match Uid::parse(page_id) {
        Some(id) => id,
        None => {
            return Err(BlockError::InvalidPageId);
        },
    };
    let order = next_order(existing, &parent_id);
    let block = Block::new(page, block_type, content).with_order(order);
    match parent_id {
        Some(text) => match Uid::parse(text.as_str()) {
            Some(parent) => Ok(block.with_parent(parent)),
            None => Err(BlockError::InvalidParentId),
        },
        None => Ok(block),
    }
}

/// The index of the first block at or after `from` whose identifier is
/// written `block_id`, or the number of blocks where there is none.
pub open spec fn block_index_from(blocks: Seq<Block>, block_id: Seq<char>, from: int) -> int
    decreases blocks.len() - from,
{
    if from >= blocks.len() {
        blocks.len() as int
    } else if hyphenated(blocks[from].id.bits) == block_id {
        from
    } else {
        block_index_from(blocks, block_id, from + 1)
    }
}

/// Finds the first block whose identifier is written `block_id`, in its
/// hyphenated lower-case form.
pub fn find_block(blocks: &Vec<Block>, block_id: &str) -> (r: Option<usize>)
    ensures
        match r {
            Some(i) => i < blocks@.len() && i == block_index_from(blocks@, block_id@, 0),
            None => block_index_from(blocks@, block_id@, 0) == blocks@.len(),
        },
{
    let wanted = String::from_str(block_id);
    let mut i: usize = 0;
    while i < blocks.len()
        invariant
            i <= blocks@.len(),
            wanted@ == block_id@,
            block_index_from(blocks@, block_id@, i as int) == block_index_from(
                blocks@,
                block_id@,
                0,
            ),
        decreases blocks@.len() - i,
    {
        if blocks[i].id.to_text() == wanted {
            return Some(i);
        }
        i += 1;
    }
    None
}

} // verus!
