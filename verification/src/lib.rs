//! A hierarchical selection menu over a file-tree-backed password store.
//!
//! The crate holds the menu's logic: the listing of a store tree, the
//! normalisation of paths for display, prefix completion one path segment at
//! a time, and the state machine that turns host events into directives and
//! effects. Each item carries a contract that Verus proves.

pub mod error;
pub mod text;
pub mod path;
pub mod complete;
pub mod tree;
pub mod menu;
pub mod event;
pub mod transition;
pub mod modi;
