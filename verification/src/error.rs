//! What a failed parse reports.

use crate::token::{Token, TokenKind, TokenView};
use vstd::prelude::*;

verus! {

/// The grammar rules that can appear in an error.
#[derive(Clone, Copy, PartialEq, Eq, Structural, Debug)]
pub enum Construct {
    Declaration,
    Param,
    Define,
    PunctSet,
    RawTokens,
    FindFirst,
    Scan,
}

/// Why a rule gave up.
#[derive(Debug, PartialEq, Eq)]
#[allow(inconsistent_fields)]
pub enum ErrorKind {
    /// A punctuated set held no element.
    EmptySequence,
    /// A stretch of a punctuated set is not an element of the expected rule.
    ElementParseFailed { expected: Construct, got: Vec<Token> },
    /// No token of the stream fits the pattern that was searched for.
    NoMatchFound { expected: TokenKind },
    /// A declaration has no type name where one is due.
    MissingType,
    /// A parameter has no type expression where one is due.
    ExpectedType { actual: Option<Token> },
    /// A parameter has `: identifier` with nothing that can be its name in front.
    MalformedName,
    /// A definition does not start with an identifier.
    MissingIdent,
    /// A value is due and none is there.
    MissingValue,
    /// The stream ended inside a brace that was opened and never closed.
    UnbalancedGroup,
}

/// The mathematical value of an [`ErrorKind`].
#[allow(inconsistent_fields)]
pub enum ErrorKindView {
    EmptySequence,
    ElementParseFailed { expected: Construct, got: Seq<TokenView> },
    NoMatchFound { expected: TokenKind },
    MissingType,
    ExpectedType { actual: Option<TokenView> },
    MalformedName,
    MissingIdent,
    MissingValue,
    UnbalancedGroup,
}

impl DeepView for ErrorKind {
    type V = ErrorKindView;

    open spec fn deep_view(&self) -> ErrorKindView {
        match self {
            ErrorKind::EmptySequence => ErrorKindView::EmptySequence,
            ErrorKind::ElementParseFailed { expected, got } => ErrorKindView::ElementParseFailed {
                expected: *expected,
                got: got.deep_view(),
            },
            ErrorKind::NoMatchFound { expected } => ErrorKindView::NoMatchFound {
                expected: *expected,
            },
            ErrorKind::MissingType => ErrorKindView::MissingType,
            ErrorKind::ExpectedType { actual } => ErrorKindView::ExpectedType {
                actual: actual.deep_view(),
            },
            ErrorKind::MalformedName => ErrorKindView::MalformedName,
            ErrorKind::MissingIdent => ErrorKindView::MissingIdent,
            ErrorKind::MissingValue => ErrorKindView::MissingValue,
            ErrorKind::UnbalancedGroup => ErrorKindView::UnbalancedGroup,
        }
    }
}

/// A failed parse: why it failed, the input that was left where it failed,
/// and the rules that were being read, from the one that failed outwards.
#[derive(Debug, PartialEq, Eq)]
pub struct ParseError {
    pub kind: ErrorKind,
    pub remaining: Vec<Token>,
    pub context: Vec<Construct>,
}

/// The mathematical value of a [`ParseError`].
pub struct ParseErrorView {
    pub kind: ErrorKindView,
    pub remaining: Seq<TokenView>,
    pub context: Seq<Construct>,
}

impl DeepView for ParseError {
    type V = ParseErrorView;

    open spec fn deep_view(&self) -> ParseErrorView {
        ParseErrorView {
            kind: self.kind.deep_view(),
            remaining: self.remaining.deep_view(),
            context: self.context@,
        }
    }
}

/// The error that `construct` raises for `kind` with `remaining` left to read.
pub open spec fn failure(
    kind: ErrorKindView,
    remaining: Seq<TokenView>,
    construct: Construct,
) -> ParseErrorView {
    ParseErrorView { kind, remaining, context: seq![construct] }
}

impl ParseErrorView {
    /// The same error, seen from the enclosing rule `construct`.
    pub open spec fn within(self, construct: Construct) -> ParseErrorView {
        ParseErrorView { context: self.context.push(construct), ..self }
    }
}

/// The view of a parse result: the view of the value, or of the error.
pub open spec fn result_view<T: DeepView>(result: Result<T, ParseError>) -> Result<
    T::V,
    ParseErrorView,
> {
    match result {
        Ok(value) => Ok(value.deep_view()),
        Err(error) => Err(error.deep_view()),
    }
}

impl ParseError {
    pub fn new(kind: ErrorKind, remaining: Vec<Token>, construct: Construct) -> (error: Self)
        ensures
            error.deep_view() == failure(kind.deep_view(), remaining.deep_view(), construct),
    {
        let mut context: Vec<Construct> = Vec::new();
        context.push(construct);
        assert(context@ =~= seq![construct]);
        ParseError { kind, remaining, context }
    }

    /// Adds the enclosing rule to the error's context.
    pub fn within(self, construct: Construct) -> (error: Self)
        ensures
            error.deep_view() == self.deep_view().within(construct),
    {
        let mut context = self.context;
        context.push(construct);
        ParseError { kind: self.kind, remaining: self.remaining, context }
    }

    /// How many tokens of a stream of `stream_len` tokens had been read when
    /// the error was raised, given that the error was raised on that stream.
    pub fn position(&self, stream_len: usize) -> (position: usize)
        ensures
            position == if self.remaining.len() <= stream_len {
                stream_len - self.remaining.len()
            } else {
                0
            },
    {
        if self.remaining.len() <= stream_len {
            stream_len - self.remaining.len()
        } else {
            0
        }
    }
}

} // verus!
