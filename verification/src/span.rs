//! Source-location markers attached to parsed tokens, instructions and
//! diagnostics. A span records the line a token came from, or nothing at
//! all for synthesized items; it is only ever used for reporting.

use vstd::prelude::*;

verus! {

/// A source-line marker. `line` is `None` for items with no origin,
/// such as instructions synthesized during post-processing.
#[derive(Debug, Clone, Copy)]
pub struct Span {
    pub line: Option<u64>,
}

impl Span {
    /// A span with no origin.
    pub fn none() -> (r: Span)
        ensures
            r.line is None,
    {
        Span { line: None }
    }

    /// A span pointing at one source line.
    pub fn from_line(line: u64) -> (r: Span)
        ensures
            r.line == Some(line),
    {
        Span { line: Some(line) }
    }
}

} // verus!
