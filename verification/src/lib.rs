//! A structural cursor for a hierarchical text document.
//!
//! A document is a fixed-depth tree (window, document, line, span,
//! character). The cursor is a zipper over that tree: a stack of
//! breadcrumbs, one per level, each remembering the focused node and its
//! siblings to the left and right. An [`Editor`] holds the tree, the cursor
//! and the mode, and takes one [`Command`] at a time.

pub mod cursor;
pub mod edit;
pub mod editor;
pub mod level;
pub mod mode;
pub mod movement;
pub mod navigate;
pub mod round_trip;
pub mod segment;
pub mod tree;
pub mod viewport;

pub use crate::cursor::{
    BranchZipperBundle, Cursor, MoveError, MoveInstruction, RootZipperBundle, ZipperFocus,
    ZipperSiblings,
};
pub use crate::edit::InsertChar;
pub use crate::editor::{Editor, Outcome};
pub use crate::level::ZipperType;
pub use crate::mode::{AppState, Command, Key, KeyPress, Save};
pub use crate::navigate::{GoToChar, MoveChar};
pub use crate::tree::DocumentTree;
pub use crate::viewport::{Scroll, ScrollPosition};
