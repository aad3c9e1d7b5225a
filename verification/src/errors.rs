//! The error kinds of the tokenizer, the reader and the evaluator. Nothing
//! is recovered internally: an error propagates out of the current
//! read-eval iteration unchanged.

use vstd::prelude::*;

verus! {

/// Model of an error, with text payloads as character sequences.
pub enum ErrorModel {
    TokenizeMalformedLiteral(Seq<char>),
    ParseUnexpectedClose(Seq<char>),
    ParseUnexpectedEnd,
    ParseInvalidAtom(Seq<char>),
    ParseDepthExceeded,
    ArityError { expected: int, found: int },
    UnboundSymbolError(Seq<char>),
    NotCallableError,
    UnsupportedOperationError,
}

/// An error of the reader or the evaluator.
#[derive(Debug, PartialEq, Eq)]
pub enum RispError {
    /// A token opened by `"` that does not close with `"`.
    TokenizeMalformedLiteral(String),
    /// A closing delimiter with no matching opener, or one that does not
    /// match the opener of the enclosing literal.
    ParseUnexpectedClose(String),
    /// The token stream ended before an expected closing delimiter.
    ParseUnexpectedEnd,
    /// A literal whose elements do not fit its kind: a map or set element
    /// that is not an atom, an odd number of map elements, or a repeated
    /// map key or set element.
    ParseInvalidAtom(String),
    /// Source nesting deeper than the caller's ceiling.
    ParseDepthExceeded,
    /// A built-in invoked with the wrong number of arguments.
    ArityError { expected: usize, found: usize },
    /// A symbol with no namespace entry.
    UnboundSymbolError(String),
    /// A form whose operator does not denote a namespace entry.
    NotCallableError,
    /// An operation applied to an incompatible sequence variant.
    UnsupportedOperationError,
}

impl View for RispError {
    type V = ErrorModel;

    open spec fn view(&self) -> ErrorModel {
        match *self {
            RispError::TokenizeMalformedLiteral(t) => ErrorModel::TokenizeMalformedLiteral(t@),
            RispError::ParseUnexpectedClose(t) => ErrorModel::ParseUnexpectedClose(t@),
            RispError::ParseUnexpectedEnd => ErrorModel::ParseUnexpectedEnd,
            RispError::ParseInvalidAtom(t) => ErrorModel::ParseInvalidAtom(t@),
            RispError::ParseDepthExceeded => ErrorModel::ParseDepthExceeded,
            RispError::ArityError { expected, found } => ErrorModel::ArityError {
                expected: expected as int,
                found: found as int,
            },
            RispError::UnboundSymbolError(t) => ErrorModel::UnboundSymbolError(t@),
            RispError::NotCallableError => ErrorModel::NotCallableError,
            RispError::UnsupportedOperationError => ErrorModel::UnsupportedOperationError,
        }
    }
}

} // verus!
