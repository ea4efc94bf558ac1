//! Definitions: a key, a separator, and a value that is kept as written.

use crate::cursor::Cursor;
use crate::error::{failure, result_view, Construct, ErrorKind, ErrorKindView, ParseError, ParseErrorView};
use crate::punct_set::{
    collect, join, punct_set, split, write_joined, PunctSet, PunctSetView,
};
use crate::parse_utils::unwrap_input;
use crate::text::stream_to_string;
use crate::token::{clone_tokens, stream_text, Delimiter, Spacing, Token, TokenView};
use vstd::prelude::*;

verus! {

/// A key and its value, as in `foo: Bar` or `thing: SomeCtor(cool)`.
#[derive(Debug, PartialEq, Eq)]
pub struct Define {
    pub ident: String,
    pub value: Vec<Token>,
}

/// The mathematical value of a [`Define`].
pub struct DefineView {
    pub ident: Seq<char>,
    pub value: Seq<TokenView>,
}

impl DeepView for Define {
    type V = DefineView;

    open spec fn deep_view(&self) -> DefineView {
        DefineView { ident: self.ident@, value: self.value.deep_view() }
    }
}

/// A list of definitions parted by commas.
pub type Defines = PunctSet<Define>;

/// The definition that `stream` holds: an identifier, one token of any
/// kind in the place of the separator, and at least one token of value.
pub open spec fn parse_define(stream: Seq<TokenView>) -> Result<DefineView, ParseErrorView> {
    if stream.len() == 0 || !stream[0].is_ident() {
        Err(failure(ErrorKindView::MissingIdent, stream, Construct::Define))
    } else if stream.len() <= 2 {
        Err(failure(ErrorKindView::MissingValue, Seq::empty(), Construct::Define))
    } else {
        Ok(DefineView { ident: stream[0].spelling(), value: stream.skip(2) })
    }
}

/// The written form of a definition: key, colon, value.
pub open spec fn define_tokens(define: DefineView) -> Seq<TokenView> {
    seq![TokenView::Ident(define.ident), TokenView::Punct(':', Spacing::Alone)] + define.value
}

/// The lower-case form of `text`, as `str::to_lowercase` gives it.
pub uninterp spec fn lowercased(text: Seq<char>) -> Seq<char>;

/// `str::to_lowercase`: the lower-case form of `text`, which depends on
/// the characters of `text` alone.
#[verifier::external_body]
fn lowercase(text: &str) -> (lower: String)
    ensures
        lower@ == lowercased(text@),
{
    text.to_lowercase()
}

impl Define {
    /// Reads a definition from the whole of `tokens`. The token after the
    /// identifier stands for the separator, whatever it is.
    pub fn parse(tokens: &Vec<Token>) -> (result: Result<Define, ParseError>)
        ensures
            result_view(result) == parse_define(tokens.deep_view()),
    {
        let mut cursor = Cursor::new(tokens);
        let ident = match cursor.peek(0) {
            Some(token) => match token.ident_name() {
                Some(name) => name.clone(),
                None => {
                    return Err(
                        ParseError::new(
                            ErrorKind::MissingIdent,
                            cursor.snapshot(),
                            Construct::Define,
                        ),
                    );
                },
            },
            None => {
                return Err(
                    ParseError::new(ErrorKind::MissingIdent, cursor.snapshot(), Construct::Define),
                );
            },
        };
        if cursor.len() <= 2 {
            let left: Vec<Token> = Vec::new();
            assert(left.deep_view() =~= Seq::empty());
            return Err(ParseError::new(ErrorKind::MissingValue, left, Construct::Define));
        }
        cursor.advance(2);
        let value = cursor.snapshot();
        Ok(Define { ident, value })
    }

    /// The key in lower case.
    pub fn name(&self) -> (name: String)
        ensures
            name@ == lowercased(self.ident@),
    {
        lowercase(self.ident.as_str())
    }

    /// Writes the definition out: key, colon, value.
    pub fn to_tokens(&self) -> (tokens: Vec<Token>)
        ensures
            tokens.deep_view() == define_tokens(self.deep_view()),
    {
        let mut tokens: Vec<Token> = Vec::new();
        tokens.push(Token::Ident(self.ident.clone()));
        tokens.push(Token::Punct(':', Spacing::Alone));
        let mut value = clone_tokens(&self.value);
        tokens.append(&mut value);
        assert(tokens.deep_view() =~= define_tokens(self.deep_view()));
        tokens
    }

    /// The definition made public: the word `pub` and then the definition.
    pub fn as_pub(&self) -> (tokens: Vec<Token>)
        ensures
            tokens.deep_view() == seq![TokenView::Ident("pub"@)] + define_tokens(self.deep_view()),
    {
        let mut tokens: Vec<Token> = Vec::new();
        tokens.push(Token::Ident(String::from_str("pub")));
        let mut rest = self.to_tokens();
        tokens.append(&mut rest);
        assert(tokens.deep_view() =~= seq![TokenView::Ident("pub"@)] + define_tokens(
            self.deep_view(),
        ));
        tokens
    }

    /// The definition as text.
    pub fn display(&self) -> (text: String)
        ensures
            text@ == stream_text(define_tokens(self.deep_view())),
    {
        let tokens = self.to_tokens();
        stream_to_string(&tokens)
    }
}

/// A stretch of a list of definitions as one definition.
pub open spec fn define_element(stream: Seq<TokenView>) -> Option<DefineView> {
    match parse_define(stream) {
        Ok(define) => Some(define),
        Err(_) => None,
    }
}

/// The rule by which a list of definitions reads each of its stretches.
pub open spec fn define_reader() -> spec_fn(Seq<TokenView>) -> Option<DefineView> {
    |c: Seq<TokenView>| define_element(c)
}

/// The list of definitions that `stream` holds.
pub open spec fn parse_defines(stream: Seq<TokenView>) -> Result<
    PunctSetView<DefineView>,
    ParseErrorView,
> {
    punct_set(stream, ',', Construct::Define, define_reader())
}

/// The written forms of the definitions of a list, in order.
pub open spec fn define_parts(vals: Seq<DefineView>) -> Seq<Seq<TokenView>> {
    Seq::new(vals.len(), |i: int| define_tokens(vals[i]))
}

impl PunctSet<Define> {
    /// A list without definitions, with the comma as its separator.
    pub fn empty() -> (set: Self)
        ensures
            set.deep_view() == (PunctSetView::<DefineView> {
                vals: Seq::empty(),
                delim: Some(TokenView::Punct(',', Spacing::Alone)),
            }),
    {
        let vals: Vec<Define> = Vec::new();
        assert(vals.deep_view() =~= Seq::<DefineView>::empty());
        PunctSet { vals, delim: Some(Token::Punct(',', Spacing::Alone)) }
    }

    /// Reads a list of definitions parted by commas. A stream that starts
    /// with a group in parentheses is read inside that group. The list must
    /// hold at least one definition.
    pub fn parse(tokens: &Vec<Token>) -> (result: Result<Self, ParseError>)
        ensures
            result_view(result) == parse_defines(tokens.deep_view()),
    {
        let inner = unwrap_input(tokens, Delimiter::Parenthesis);
        let parts = split(inner, ',');
        let ghost stretches = parts.deep_view();
        let mut read: Vec<Option<Define>> = Vec::new();
        let mut i: usize = 0;
        while i < parts.len()
            invariant
                i <= parts.len(),
                read.len() == i,
                stretches == parts.deep_view(),
                forall|j: int|
                    0 <= j < i ==> (#[trigger] read@[j]).deep_view() == define_element(
                        stretches[j],
                    ),
            decreases parts.len() - i,
        {
            let one = match Define::parse(&parts[i]) {
                Ok(define) => Some(define),
                Err(_) => None,
            };
            read.push(one);
            i += 1;
        }
        assert(read.deep_view() =~= Seq::new(
            stretches.len(),
            |i: int| define_reader()(stretches[i]),
        ));
        collect(inner, ',', read, Construct::Define)
    }

    /// Writes the list out: its definitions in order, with the separator
    /// between each two and none after the last.
    pub fn to_tokens(&self) -> (tokens: Vec<Token>)
        ensures
            tokens.deep_view() == join(define_parts(self.deep_view().vals), self.deep_view().delim),
    {
        let ghost wanted = define_parts(self.deep_view().vals);
        let mut parts: Vec<Vec<Token>> = Vec::new();
        let mut i: usize = 0;
        while i < self.vals.len()
            invariant
                i <= self.vals.len(),
                parts.len() == i,
                wanted == define_parts(self.deep_view().vals),
                wanted.len() == self.vals.len(),
                forall|j: int| 0 <= j < i ==> (#[trigger] parts@[j]).deep_view() == wanted[j],
            decreases self.vals.len() - i,
        {
            parts.push(self.vals[i].to_tokens());
            i += 1;
        }
        assert(parts.deep_view() =~= wanted);
        write_joined(&parts, &self.delim)
    }

    /// The list as text.
    pub fn display(&self) -> (text: String)
        ensures
            text@ == stream_text(
                join(define_parts(self.deep_view().vals), self.deep_view().delim),
            ),
    {
        let tokens = self.to_tokens();
        stream_to_string(&tokens)
    }
}

} // verus!
