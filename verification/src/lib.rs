//! An index of the notes below a directory.
//!
//! A note is a text file that starts with a title marker: a title line and an
//! underline of hyphens. Each note is told by the canonical path of its file
//! and tagged with the directory that holds it, relative to the root of the
//! scan; every symlink that leads to a note adds the directory that holds the
//! link as a further tag.
//!
//! The library works on what was read of the tree: the text of each file and
//! the canonical forms of the paths involved. Reading them is left to the
//! caller.

pub mod title;
pub mod excerpt;
pub mod tag;
pub mod note;
pub mod collection;
pub mod walk;

pub use crate::collection::{Entry, LinkProbe, Notes};
pub use crate::note::{FileProbe, Note, NoteErrors, Resolved};
