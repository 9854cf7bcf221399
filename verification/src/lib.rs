//! Search, snippet and replace engine of a block-structured note store.
//!
//! Text is measured in bytes of its UTF-8 encoding throughout: match spans,
//! snippet windows and replacements all index the same byte sequence, and
//! every offset that the library hands out lies on a character boundary.

pub mod text;
pub mod boundary;
pub mod matcher;
pub mod snippet;
pub mod replace;
pub mod models;
pub mod aggregator;
pub mod grouping;
pub mod asset;
pub mod placement;
