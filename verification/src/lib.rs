//! Navigation core of a dual-pane file navigator: a lazily loaded tree of
//! filesystem nodes, the cursor pair that walks it, the two line projections
//! derived from it, and the viewport arithmetic that clips them to a window.
//!
//! The filesystem is consumed through [`tree_node::DirSource`]; the terminal
//! is not touched at all: a refresh hands out drawing operations and a key
//! is handed in as a [`common::Key`].

pub mod common;
pub mod text;
pub mod filesystem;
pub mod pathname;
pub mod tree_node;
pub mod tree;
pub mod display;
pub mod list_view;
pub mod tree_view;
pub mod screen;
pub mod session;
