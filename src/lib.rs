//! Derives a tree of module declarations from a model of a directory tree.
//!
//! A caller lists the filesystem into [`FsEntry`] values; the functions here
//! decide which entries become declarations, derive their identifiers, prune
//! directories that contribute nothing, and render the result as source text.

use vstd::prelude::*;

pub mod ident;
pub mod names;
pub mod tree;
pub mod scan;
pub mod generate;
pub mod render;

pub use generate::{include_all_modules, include_folder, MAX_DEPTH};
pub use ident::{identifier_for, sanitize};
pub use names::{path_final_segment, stem_with_extension};
pub use render::render;
pub use scan::scan;
pub use tree::{DeclarationEntry, EntryKind, FsEntry, Listing, ScanError};

verus! {

} // verus!
