//! Finds `FIXME` and `TODO` comments in source text and turns them into
//! issue records, merging a tagged line comment with the untagged line
//! comments that directly follow it.
pub mod bytes;
pub mod classify;
pub mod scanner;
pub mod extract;
pub mod config;
pub mod linear;

use vstd::prelude::*;

verus! {

} // verus!
