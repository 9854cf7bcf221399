use bismuth::models::block::{Block, BlockType};
use bismuth::models::ids::Uid;
use bismuth::models::page::Page;
use bismuth::placement::{find_block, new_block, next_order, BlockError};

const A: &str = "a1a2a3a4-b1b2-c1c2-d1d2-d3d4d5d6d7d8";
const A_BITS: u128 = 0xa1a2a3a4b1b2c1c2d1d2d3d4d5d6d7d8;

fn block_at(parent: Option<Uid>, order: i32) -> Block {
    let block = Block::new(Uid { bits: 1 }, BlockType::Text, String::new()).with_order(order);
    match parent {
        Some(p) => block.with_parent(p),
        None => block,
    }
}

#[test]
fn identifier_is_written_hyphenated_in_lower_case() {
    assert_eq!(Uid { bits: A_BITS }.to_text(), A);
    assert_eq!(Uid { bits: 0 }.to_text(), "00000000-0000-0000-0000-000000000000");
    assert_eq!(Uid { bits: u128::MAX }.to_text(), "ffffffff-ffff-ffff-ffff-ffffffffffff");
    assert_eq!(Uid { bits: 0x1f }.to_text(), "00000000-0000-0000-0000-00000000001f");
}

#[test]
fn identifier_is_read_in_every_accepted_form() {
    assert_eq!(Uid::parse(A), Some(Uid { bits: A_BITS }));
    assert_eq!(Uid::parse("A1A2A3A4-B1B2-C1C2-D1D2-D3D4D5D6D7D8"), Some(Uid { bits: A_BITS }));
    assert_eq!(Uid::parse("a1a2a3a4b1b2c1c2d1d2d3d4d5d6d7d8"), Some(Uid { bits: A_BITS }));
    assert_eq!(Uid::parse("{a1a2a3a4-b1b2-c1c2-d1d2-d3d4d5d6d7d8}"), Some(Uid { bits: A_BITS }));
    assert_eq!(
        Uid::parse("urn:uuid:a1a2a3a4-b1b2-c1c2-d1d2-d3d4d5d6d7d8"),
        Some(Uid { bits: A_BITS })
    );
}

#[test]
fn malformed_identifier_is_not_read() {
    assert_eq!(Uid::parse(""), None);
    assert_eq!(Uid::parse("not-an-id"), None);
    assert_eq!(Uid::parse("a1a2a3a4-b1b2-c1c2-d1d2-d3d4d5d6d7d"), None);
    assert_eq!(Uid::parse("g1a2a3a4-b1b2-c1c2-d1d2-d3d4d5d6d7d8"), None);
}

#[test]
fn random_identifiers_carry_version_and_variant() {
    let a = Uid::random();
    let b = Uid::random();
    assert_ne!(a, b);
    for id in [a, b] {
        assert_eq!((id.bits >> 76) & 0xf, 4);
        assert_eq!((id.bits >> 62) & 0x3, 2);
        assert_eq!(Uid::parse(&id.to_text()), Some(id));
    }
}

#[test]
fn new_page_is_a_plain_root() {
    let page = Page::new("Intro".to_string());
    assert_eq!(page.title, "Intro");
    assert_eq!(page.icon, None);
    assert_eq!(page.cover, None);
    assert_eq!(page.parent_id, None);
    assert!(!page.is_archived);
    assert_eq!(page.created_at, page.updated_at);
    assert!(page.created_at.seconds > 1_600_000_000);
    assert!(page.created_at.nanos < 2_000_000_000);
    let id = Uid::parse(&page.id).expect("the id of a page is an identifier");
    assert_eq!(id.to_text(), page.id);
    assert_ne!(Page::new("Intro".to_string()).id, page.id);
}

#[test]
fn page_builders_set_one_field() {
    let page = Page::new("Child".to_string());
    let id = page.id.clone();
    let nested = page.with_parent("parent-id".to_string()).with_icon("icon.png".to_string());
    assert_eq!(nested.id, id);
    assert_eq!(nested.title, "Child");
    assert_eq!(nested.parent_id, Some("parent-id".to_string()));
    assert_eq!(nested.icon, Some("icon.png".to_string()));
    assert_eq!(nested.cover, None);
}

#[test]
fn new_block_is_first_at_the_top_level() {
    let page = Uid { bits: 7 };
    let block = Block::new(page, BlockType::Todo { checked: true }, "buy milk".to_string());
    assert_eq!(block.page_id, page);
    assert_eq!(block.block_type, BlockType::Todo { checked: true });
    assert_eq!(block.content, "buy milk");
    assert_eq!(block.parent_id, None);
    assert_eq!(block.order, 0);
    assert_eq!(block.created_at, block.updated_at);
}

#[test]
fn block_builders_set_one_field() {
    let page = Uid { bits: 7 };
    let parent = Uid { bits: 9 };
    let block = Block::new(page, BlockType::Code { language: "rust".to_string() }, "x".to_string());
    let id = block.id;
    let moved = block.with_parent(parent).with_order(5);
    assert_eq!(moved.id, id);
    assert_eq!(moved.page_id, page);
    assert_eq!(moved.parent_id, Some(parent));
    assert_eq!(moved.order, 5);
    assert_eq!(moved.block_type, BlockType::Code { language: "rust".to_string() });
}

#[test]
fn first_block_gets_order_zero() {
    assert_eq!(next_order(&vec![], &None), 0);
    assert_eq!(next_order(&vec![], &Some(A.to_string())), 0);
    let nested = vec![block_at(Some(Uid { bits: A_BITS }), 4)];
    assert_eq!(next_order(&nested, &None), 0);
}

#[test]
fn next_block_goes_behind_the_last_sibling() {
    let parent = Uid { bits: A_BITS };
    let blocks = vec![
        block_at(None, 0),
        block_at(None, 3),
        block_at(Some(parent), 7),
        block_at(None, 1),
        block_at(Some(Uid { bits: 5 }), 20),
    ];
    assert_eq!(next_order(&blocks, &None), 4);
    assert_eq!(next_order(&blocks, &Some(A.to_string())), 8);
    assert_eq!(next_order(&vec![block_at(None, -5)], &None), -4);
}

#[test]
fn parent_is_named_by_its_hyphenated_text_only() {
    let blocks = vec![block_at(Some(Uid { bits: A_BITS }), 7)];
    assert_eq!(next_order(&blocks, &Some(A.to_uppercase())), 0);
    assert_eq!(next_order(&blocks, &Some("a1a2a3a4b1b2c1c2d1d2d3d4d5d6d7d8".to_string())), 0);
}

#[test]
fn created_block_is_placed_and_nested() {
    let parent = Uid { bits: A_BITS };
    let existing = vec![block_at(Some(parent), 2), block_at(None, 9)];
    let page = "00000000-0000-0000-0000-000000000007";
    let block = new_block(page, BlockType::Quote, "q".to_string(), Some(A.to_string()), &existing)
        .expect("both identifiers are well formed");
    assert_eq!(block.page_id, Uid { bits: 7 });
    assert_eq!(block.parent_id, Some(parent));
    assert_eq!(block.order, 3);
    assert_eq!(block.block_type, BlockType::Quote);
    assert_eq!(block.content, "q");

    let top = new_block(page, BlockType::Text, String::new(), None, &existing).unwrap();
    assert_eq!(top.parent_id, None);
    assert_eq!(top.order, 10);
}

#[test]
fn malformed_identifiers_are_refused() {
    let page = "00000000-0000-0000-0000-000000000007";
    let bad_page = new_block("nope", BlockType::Text, String::new(), None, &vec![]);
    assert_eq!(bad_page.err(), Some(BlockError::InvalidPageId));
    let bad_parent =
        new_block(page, BlockType::Text, String::new(), Some("nope".to_string()), &vec![]);
    assert_eq!(bad_parent.err(), Some(BlockError::InvalidParentId));
    let both = new_block("nope", BlockType::Text, String::new(), Some("nope".to_string()), &vec![]);
    assert_eq!(both.err(), Some(BlockError::InvalidPageId));
}

#[test]
fn block_is_found_by_its_hyphenated_text() {
    let mut first = block_at(None, 0);
    first.id = Uid { bits: 1 };
    let mut second = block_at(None, 1);
    second.id = Uid { bits: A_BITS };
    let blocks = vec![first, second];
    assert_eq!(find_block(&blocks, A), Some(1));
    assert_eq!(find_block(&blocks, "00000000-0000-0000-0000-000000000001"), Some(0));
    assert_eq!(find_block(&blocks, &A.to_uppercase()), None);
    assert_eq!(find_block(&blocks, ""), None);
    assert_eq!(find_block(&vec![], A), None);
}
