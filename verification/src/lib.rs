//! Fuzzy path finding: scoring of candidate names against a query by local
//! alignment, the filter and boost policy around it, and the selection of the
//! best matches in a deterministic order.

pub mod align;
pub mod candidate;
pub mod config;
pub mod order;
pub mod rank;
pub mod score;
pub mod search;
pub mod select;
pub mod sort;
pub mod text;
