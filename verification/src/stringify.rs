//! Names and texts of tokens, for messages.

use crate::text::{push_char, stream_to_string};
use crate::token::{stream_text, Delimiter, Token, TokenKind, TokenView};
use vstd::prelude::*;

verus! {

/// The name of a pattern, as it is written in messages.
pub open spec fn kind_name(kind: TokenKind) -> Seq<char> {
    match kind {
        TokenKind::Ident => "identifier"@,
        TokenKind::Literal => "literal"@,
        TokenKind::Punct(ch) => seq!['`', ch, '`'],
        TokenKind::Group(Delimiter::Parenthesis) => "parentheses"@,
        TokenKind::Group(Delimiter::Brace) => "curly braces"@,
        TokenKind::Group(Delimiter::Bracket) => "square brackets"@,
        TokenKind::Word(word) => seq!['`'] + word@ + seq!['`'],
        TokenKind::Any => "token"@,
    }
}

/// The name of the pattern `kind`: `identifier`, `literal`, the mark or
/// the word between backticks, the name of the bracket pair, or `token`.
pub fn peekable_as_string(kind: TokenKind) -> (name: String)
    ensures
        name@ == kind_name(kind),
{
    match kind {
        TokenKind::Ident => String::from_str("identifier"),
        TokenKind::Literal => String::from_str("literal"),
        TokenKind::Punct(ch) => {
            let mut name = String::new();
            push_char(&mut name, '`');
            push_char(&mut name, ch);
            push_char(&mut name, '`');
            assert(name@ =~= seq!['`', ch, '`']);
            name
        },
        TokenKind::Group(Delimiter::Parenthesis) => String::from_str("parentheses"),
        TokenKind::Group(Delimiter::Brace) => String::from_str("curly braces"),
        TokenKind::Group(Delimiter::Bracket) => String::from_str("square brackets"),
        TokenKind::Word(word) => {
            let mut name = String::new();
            push_char(&mut name, '`');
            name.append(word);
            push_char(&mut name, '`');
            assert(name@ =~= seq!['`'] + word@ + seq!['`']);
            name
        },
        TokenKind::Any => String::from_str("token"),
    }
}

/// The text of a stream of tokens.
pub fn parsable_as_string(tokens: &Vec<Token>) -> (text: String)
    ensures
        text@ == stream_text(tokens.deep_view()),
{
    stream_to_string(tokens)
}

/// A stream of tokens that is shown as its text.
#[derive(Debug, PartialEq, Eq)]
pub struct StringableParsable(pub Vec<Token>);

impl DeepView for StringableParsable {
    type V = Seq<TokenView>;

    open spec fn deep_view(&self) -> Seq<TokenView> {
        self.0.deep_view()
    }
}

impl StringableParsable {
    /// Wraps a stream.
    pub fn from(value: Vec<Token>) -> (wrapped: Self)
        ensures
            wrapped.deep_view() == value.deep_view(),
    {
        StringableParsable(value)
    }

    /// The stream itself.
    pub fn to_tokens(&self) -> (tokens: Vec<Token>)
        ensures
            tokens.deep_view() == self.deep_view(),
    {
        crate::token::clone_tokens(&self.0)
    }

    /// The text of the stream.
    pub fn display(&self) -> (text: String)
        ensures
            text@ == stream_text(self.deep_view()),
    {
        parsable_as_string(&self.0)
    }
}

} // verus!
