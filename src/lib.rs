//! A directory-tree collector: scan a folder into a sorted tree of files,
//! mark a subset of them, and export that subset.

pub mod node;
pub mod export;
pub mod text;
pub mod search;
pub mod selection;
pub mod order;
pub mod rules;
pub mod scanner;
pub mod collector;
pub mod laws;
