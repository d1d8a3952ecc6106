//! An ordered, multi-way tree container.
//!
//! A [`Node`] owns one value and an ordered sequence of child nodes, each of
//! which is itself a whole subtree. The API offers double-ended and indexed
//! insertion and removal, indexed and positional lookup, iteration over the
//! direct children, and recursive pre-order traversal.

mod deque;
pub mod laws;
mod node;

pub use node::Node;
