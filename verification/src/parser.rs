//! The parser boundary: producing a tree from source text is an
//! external collaborator's job. Only the signature is fixed here;
//! implementations must be deterministic for identical input.

use vstd::prelude::*;
use crate::ast::Node;
use crate::error::RfmtError;

verus! {

/// A parser for the source language. The pipeline treats the result of
/// `parse` as opaque: whatever tree comes back is formatted.
pub trait RubyParser: Send + Sync {
    /// Parses source text into a tree, or reports a `ParseError`.
    fn parse(&self, source: &str) -> Result<Node, RfmtError>;

    /// The parser's name, for diagnostics.
    fn name(&self) -> &'static str;
}

} // verus!
