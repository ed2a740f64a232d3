//! The text-merge functions and the tree printer under their customary paths.
pub use crate::merge::{merge_text, merge_text_inline, merge_text_simple};
pub use crate::printer::stringify_tree;
