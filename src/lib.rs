//! Builds a tree of markup elements and serialises it to text.
//!
//! Nodes live in an arena owned by [`Html`]; the root is the node at index 0
//! and a [`Tag`] is a handle naming one node of that arena.

pub mod escape;
pub mod model;
pub mod html;
pub mod laws;

pub use html::{Html, Tag};
