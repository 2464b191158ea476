//! A file catalog kept consistent with a folder tree: registries of tags,
//! categories and subcategories, a catalog of indexed files with their tags,
//! the reconciliation of categories with the folders under a root directory,
//! and the planning of item folders.
use vstd::prelude::*;

pub mod names;
pub mod registry;
pub mod tags;
pub mod categories;
pub mod subcategories;
pub mod catalog;
pub mod items;

verus! {

} // verus!
