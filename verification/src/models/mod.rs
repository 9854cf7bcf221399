//! The data that the library hands to its callers.

pub mod block;
pub mod ids;
pub mod page;
pub mod search;
pub mod time;
