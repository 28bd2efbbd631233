//! Diagnostics produced while preprocessing route scripts. Every
//! anomaly is recoverable: the offending directive is elided from the
//! output and one of these is recorded.

use crate::span::Span;
use vstd::prelude::*;

verus! {

/// A recoverable preprocessing anomaly.
#[derive(Debug, Clone)]
pub enum PreprocessingError {
    /// The text inside the directive's parentheses did not parse.
    MalformedDirective { directive: String },
    /// The index of a `$sub` directive is not a number in range.
    InvalidSubArgument { code: String },
    /// The argument of a `$chr` directive is not a number.
    InvalidChrArgument { code: String },
    /// The include loader could not find the requested file.
    IncludeFileNotFound { file: String },
    /// The weights of a weighted include form no sampling distribution.
    RandomIncludeError { weights: Vec<i64> },
}

/// Mathematical image of a [`PreprocessingError`].
pub ghost enum ErrV {
    Malformed { directive: Seq<char> },
    InvalidSub { code: Seq<char> },
    InvalidChr { code: Seq<char> },
    NotFound { file: Seq<char> },
    RandomInclude { weights: Seq<i64> },
}

impl View for PreprocessingError {
    type V = ErrV;

    open spec fn view(&self) -> ErrV {
        match self {
            PreprocessingError::MalformedDirective { directive } => ErrV::Malformed {
                directive: directive@,
            },
            PreprocessingError::InvalidSubArgument { code } => ErrV::InvalidSub { code: code@ },
            PreprocessingError::InvalidChrArgument { code } => ErrV::InvalidChr { code: code@ },
            PreprocessingError::IncludeFileNotFound { file } => ErrV::NotFound { file: file@ },
            PreprocessingError::RandomIncludeError { weights } => ErrV::RandomInclude {
                weights: weights@,
            },
        }
    }
}

/// A diagnostic as handed back to the caller: the anomaly together with
/// the span it is attributable to, where one is known.
#[derive(Debug, Clone)]
pub struct RouteError {
    pub span: Span,
    pub kind: PreprocessingError,
}

impl View for RouteError {
    type V = ErrV;

    open spec fn view(&self) -> ErrV {
        self.kind@
    }
}

impl RouteError {
    /// Wraps an anomaly that carries no source location.
    pub fn unspanned(kind: PreprocessingError) -> (r: RouteError)
        ensures
            r@ == kind@,
            r.span.line is None,
    {
        RouteError { span: Span { line: None }, kind }
    }
}

/// The images of a list of diagnostics.
pub open spec fn errs_v(es: Seq<RouteError>) -> Seq<ErrV> {
    es.map_values(|e: RouteError| e@)
}

/// Appends one unspanned diagnostic.
pub fn push_err(errors: &mut Vec<RouteError>, kind: PreprocessingError)
    ensures
        errs_v(final(errors)@) == errs_v(old(errors)@).push(kind@),
        final(errors)@.len() == old(errors)@.len() + 1,
        forall|k: int|
            0 <= k < old(errors)@.len() ==> final(errors)@[k] == old(errors)@[k],
        final(errors)@.last().span.line is None,
{
    let ghost k = kind@;
    errors.push(RouteError::unspanned(kind));
    proof {
        assert(errs_v(errors@) =~= errs_v(old(errors)@).push(k));
    }
}

} // verus!
