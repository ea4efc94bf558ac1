//! Finding the first token of a kind in a stream that may start with
//! anything.

use crate::cursor::Cursor;
use crate::error::{failure, result_view, Construct, ErrorKind, ErrorKindView, ParseError};
use crate::parse_utils::{first_fit, lemma_first_where, parse_until};
use crate::stringify::{kind_name, peekable_as_string};
use crate::text::token_to_string;
use crate::token::{token_text, Token, TokenKind, TokenView};
use vstd::prelude::*;

verus! {

/// The first token of a stream that fits a pattern, found by reading: the
/// whole stream is used up by the search.
#[derive(Debug, PartialEq, Eq)]
pub struct ParseFirst(pub Token);

/// The first token of a stream that fits a pattern, found by looking: the
/// stream is left as it was. The pattern is kept beside the token.
#[derive(Debug, PartialEq, Eq)]
pub struct PeekFirst(pub Token, pub TokenKind);

impl DeepView for ParseFirst {
    type V = TokenView;

    open spec fn deep_view(&self) -> TokenView {
        self.0.deep_view()
    }
}

impl DeepView for PeekFirst {
    type V = (TokenView, TokenKind);

    open spec fn deep_view(&self) -> (TokenView, TokenKind) {
        (self.0.deep_view(), self.1)
    }
}

/// The first token of `stream` that fits `kind`, if there is one.
pub open spec fn first_of(stream: Seq<TokenView>, kind: TokenKind) -> Option<TokenView> {
    let k = first_fit(stream, kind);
    if k < stream.len() {
        Some(stream[k as int])
    } else {
        None
    }
}

impl ParseFirst {
    /// Reads tokens until one fits `kind`, returns that one, and throws
    /// away all that follow it. Whether one is found or not, nothing is left
    /// to read afterwards.
    pub fn parse(cursor: &mut Cursor, kind: TokenKind) -> (result: Result<ParseFirst, ParseError>)
        ensures
            final(cursor).stream() == old(cursor).stream(),
            final(cursor).rest().len() == 0,
            final(cursor).position() == old(cursor).position() + old(cursor).rest().len(),
            result_view(result) == match first_of(old(cursor).rest(), kind) {
                Some(token) => Ok(token),
                None => Err(
                    failure(
                        ErrorKindView::NoMatchFound { expected: kind },
                        Seq::empty(),
                        Construct::FindFirst,
                    ),
                ),
            },
    {
        let ghost rest = cursor.rest();
        proof {
            lemma_first_where(rest, |t: TokenView| kind.fits(t));
        }
        parse_until(cursor, kind);
        let found = match cursor.next() {
            Some(token) => Some(token.clone()),
            None => None,
        };
        let left = cursor.len();
        cursor.advance(left);
        let nothing = cursor.snapshot();
        assert(nothing.deep_view() =~= Seq::<TokenView>::empty());
        match found {
            Some(token) => Ok(ParseFirst(token)),
            None => Err(
                ParseError::new(
                    ErrorKind::NoMatchFound { expected: kind },
                    nothing,
                    Construct::FindFirst,
                ),
            ),
        }
    }

    /// The token, as a stream of one.
    pub fn to_tokens(&self) -> (tokens: Vec<Token>)
        ensures
            tokens.deep_view() == seq![self.deep_view()],
    {
        let mut tokens: Vec<Token> = Vec::new();
        tokens.push(self.0.clone());
        assert(tokens.deep_view() =~= seq![self.deep_view()]);
        tokens
    }

    /// The token as text.
    pub fn display(&self) -> (text: String)
        ensures
            text@ == token_text(self.deep_view()),
    {
        token_to_string(&self.0)
    }
}

impl PeekFirst {
    /// Looks ahead for the first token that fits `kind`. The cursor is not
    /// moved, whether one is found or not.
    pub fn parse(cursor: &Cursor, kind: TokenKind) -> (result: Result<PeekFirst, ParseError>)
        ensures
            match result {
                Ok(found) => first_of(cursor.rest(), kind) == Some(found.deep_view().0)
                    && found.deep_view().1 == kind,
                Err(error) => first_of(cursor.rest(), kind) is None && error.deep_view()
                    == failure(
                    ErrorKindView::NoMatchFound { expected: kind },
                    cursor.rest(),
                    Construct::FindFirst,
                ),
            },
    {
        let mut fork = cursor.fork();
        proof {
            lemma_first_where(cursor.rest(), |t: TokenView| kind.fits(t));
        }
        parse_until(&mut fork, kind);
        match fork.next() {
            Some(token) => Ok(PeekFirst(token.clone(), kind)),
            None => Err(
                ParseError::new(
                    ErrorKind::NoMatchFound { expected: kind },
                    cursor.snapshot(),
                    Construct::FindFirst,
                ),
            ),
        }
    }

    /// The name of the pattern that was looked for.
    pub fn display(&self) -> (text: String)
        ensures
            text@ == kind_name(self.1),
    {
        peekable_as_string(self.1)
    }
}

} // verus!
