//! Locates a single named method declaration inside a concrete syntax tree
//! and reports the byte range of the original text that spans it.
//!
//! The tree is held as plain data (`tree::SyntaxTree`): every node carries a
//! kind tag, a byte range into the source buffer, and links to its parent,
//! first child and next sibling. The search walks the tree once in pre-order
//! with an explicit stack, stops at the first identifier node that names a
//! method declaration and equals the target, and returns the declaration
//! node's own span.

pub mod grammar;
pub mod laws;
pub mod matcher;
pub mod search;
pub mod tree;
