//! The abstract syntax: annotations and types.

pub mod colosseum;
pub mod expr;
pub mod exprs;
pub mod ty;
pub mod types;
pub mod variables;

use vstd::prelude::*;

verus! {

/// A pair of starting and ending byte offsets.
#[derive(Debug, Clone, Copy, PartialEq, Eq, Hash, Structural)]
pub struct Span(pub usize, pub usize);

/// The provenance of a node.
#[derive(Debug, Clone, Copy, PartialEq, Eq, Hash, Structural)]
pub enum Ann {
    FromCompiler,
    FromSource(Span),
}

} // verus!
