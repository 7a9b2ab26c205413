//! Builds an index chapter for a directory of proposal documents and splices
//! it into a book's table of contents.
use vstd::prelude::*;

pub mod events;
pub mod index;
pub mod splice;
pub mod title;

verus! {

} // verus!
