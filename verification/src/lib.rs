//! Doc-comment grammar checking: aggregation of documentation comments into
//! blocks, remapping of checker matches back to file coordinates, and a
//! content-addressed result cache.

pub mod cache;
pub mod cli;
pub mod codec;
pub mod doc;
pub mod languagetool;
pub mod literal;
pub mod remap;
pub mod text;

use vstd::prelude::*;

verus! {

/// Top-level client settings: address and port of the grammar checker.
pub struct App {
    pub addr: String,
    pub port: String,
}

} // verus!
