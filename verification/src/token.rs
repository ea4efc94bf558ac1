//! Tokens: the leaves and bracketed groups that every grammar here reads.

use vstd::prelude::*;

verus! {

/// The bracket pair that encloses a group.
#[derive(Clone, Copy, PartialEq, Eq, Structural, Debug)]
pub enum Delimiter {
    Parenthesis,
    Brace,
    Bracket,
}

/// Whether a punctuation mark is glued to the punctuation mark that follows it.
#[derive(Clone, Copy, PartialEq, Eq, Structural, Debug)]
pub enum Spacing {
    Alone,
    Joint,
}

/// One lexical unit: a leaf, or a bracketed group of further tokens.
#[derive(Debug, PartialEq, Eq)]
pub enum Token {
    Ident(String),
    Punct(char, Spacing),
    Literal(String),
    Group(Delimiter, Vec<Token>),
}

/// The mathematical value of a [`Token`].
pub enum TokenView {
    Ident(Seq<char>),
    Punct(char, Spacing),
    Literal(Seq<char>),
    Group(Delimiter, Seq<TokenView>),
}

impl TokenView {
    pub open spec fn is_ident(self) -> bool {
        self is Ident
    }

    pub open spec fn is_literal(self) -> bool {
        self is Literal
    }

    /// An identifier spelled exactly `word`.
    pub open spec fn is_word(self, word: Seq<char>) -> bool {
        self matches TokenView::Ident(name) && name == word
    }

    pub open spec fn is_punct(self, ch: char) -> bool {
        self matches TokenView::Punct(c, _) && c == ch
    }

    pub open spec fn is_group(self, delimiter: Delimiter) -> bool {
        self matches TokenView::Group(d, _) && d == delimiter
    }

    /// The tokens between the brackets; empty for a leaf.
    pub open spec fn interior(self) -> Seq<TokenView> {
        match self {
            TokenView::Group(_, inner) => inner,
            _ => Seq::empty(),
        }
    }

    /// The spelling of an identifier or literal; empty for anything else.
    pub open spec fn spelling(self) -> Seq<char> {
        match self {
            TokenView::Ident(name) => name,
            TokenView::Literal(text) => text,
            _ => Seq::empty(),
        }
    }
}

impl DeepView for Token {
    type V = TokenView;

    open spec fn deep_view(&self) -> TokenView {
        token_view(*self)
    }
}

/// The value of a token: leaves keep their spelling or mark, a group holds
/// the values of the tokens inside it.
pub open spec fn token_view(token: Token) -> TokenView
    decreases token,
{
    match token {
        Token::Ident(name) => TokenView::Ident(name@),
        Token::Punct(ch, spacing) => TokenView::Punct(ch, spacing),
        Token::Literal(text) => TokenView::Literal(text@),
        Token::Group(delimiter, inner) => TokenView::Group(delimiter, stream_view(inner@)),
    }
}

/// The values of the tokens of a stream, in order.
pub open spec fn stream_view(stream: Seq<Token>) -> Seq<TokenView>
    decreases stream,
{
    if stream.len() == 0 {
        Seq::empty()
    } else {
        stream_view(stream.drop_last()).push(token_view(stream.last()))
    }
}

/// [`stream_view`] takes the view of each token in place.
pub(crate) proof fn lemma_stream_view(stream: Seq<Token>)
    ensures
        stream_view(stream).len() == stream.len(),
        forall|i: int| 0 <= i < stream.len() ==> #[trigger] stream_view(stream)[i] == token_view(stream[i]),
    decreases stream.len(),
{
    if stream.len() > 0 {
        lemma_stream_view(stream.drop_last());
    }
}

/// The deep view of a vector of tokens is the [`stream_view`] of its items.
pub(crate) proof fn lemma_vec_view(tokens: Vec<Token>)
    ensures
        tokens.deep_view() == stream_view(tokens@),
{
    lemma_stream_view(tokens@);
    assert(tokens.deep_view() =~= stream_view(tokens@));
}

impl Clone for Token {
    fn clone(&self) -> (res: Self)
        ensures
            res.deep_view() == self.deep_view(),
        decreases self,
    {
        match self {
            Token::Ident(name) => Token::Ident(name.clone()),
            Token::Punct(ch, spacing) => Token::Punct(*ch, *spacing),
            Token::Literal(text) => Token::Literal(text.clone()),
            Token::Group(delimiter, inner) => {
                let mut copy: Vec<Token> = Vec::new();
                let mut i: usize = 0;
                while i < inner.len()
                    invariant
                        i <= inner.len(),
                        copy.len() == i,
                        *self matches Token::Group(_, v) && v == *inner,
                        forall|j: int| 0 <= j < i ==> token_view(copy@[j]) == token_view(inner@[j]),
                    decreases inner.len() - i,
                {
                    copy.push(inner[i].clone());
                    i += 1;
                }
                proof {
                    lemma_stream_view(copy@);
                    lemma_stream_view(inner@);
                    assert(stream_view(copy@) =~= stream_view(inner@));
                }
                Token::Group(*delimiter, copy)
            },
        }
    }
}

impl Token {
    pub fn is_ident(&self) -> (b: bool)
        ensures
            b == self.deep_view().is_ident(),
    {
        match self {
            Token::Ident(_) => true,
            _ => false,
        }
    }

    pub fn is_literal(&self) -> (b: bool)
        ensures
            b == self.deep_view().is_literal(),
    {
        match self {
            Token::Literal(_) => true,
            _ => false,
        }
    }

    pub fn is_word(&self, word: &str) -> (b: bool)
        ensures
            b == self.deep_view().is_word(word@),
    {
        match self {
            Token::Ident(name) => {
                let other = String::from_str(word);
                *name == other
            },
            _ => false,
        }
    }

    pub fn is_punct(&self, ch: char) -> (b: bool)
        ensures
            b == self.deep_view().is_punct(ch),
    {
        match self {
            Token::Punct(c, _) => *c == ch,
            _ => false,
        }
    }

    pub fn is_group(&self, delimiter: Delimiter) -> (b: bool)
        ensures
            b == self.deep_view().is_group(delimiter),
    {
        match self {
            Token::Group(d, _) => *d == delimiter,
            _ => false,
        }
    }
}

/// Number of tokens in a token, counting itself and everything nested in it.
pub open spec fn token_weight(token: TokenView) -> nat
    decreases token,
{
    match token {
        TokenView::Group(_, inner) => 1 + stream_weight(inner),
        _ => 1,
    }
}

/// Number of tokens in a stream, nested ones included.
pub open spec fn stream_weight(stream: Seq<TokenView>) -> nat
    decreases stream,
{
    if stream.len() == 0 {
        0
    } else {
        stream_weight(stream.drop_last()) + token_weight(stream.last())
    }
}

pub open spec fn open_mark(delimiter: Delimiter) -> char {
    match delimiter {
        Delimiter::Parenthesis => '(',
        Delimiter::Brace => '{',
        Delimiter::Bracket => '[',
    }
}

pub open spec fn close_mark(delimiter: Delimiter) -> char {
    match delimiter {
        Delimiter::Parenthesis => ')',
        Delimiter::Brace => '}',
        Delimiter::Bracket => ']',
    }
}

/// What is written between a token and the one after it: nothing after a
/// joint punctuation mark, one blank otherwise.
pub open spec fn gap_after(token: TokenView) -> Seq<char> {
    if token matches TokenView::Punct(_, Spacing::Joint) {
        Seq::empty()
    } else {
        seq![' ']
    }
}

/// The text of one token: its spelling, its mark, or its interior between
/// its brackets. The text form is this library's own: a bracket stands
/// directly against what it encloses, in braces as in parentheses, and an
/// empty group is its two brackets.
pub open spec fn token_text(token: TokenView) -> Seq<char>
    decreases token,
{
    match token {
        TokenView::Ident(name) => name,
        TokenView::Literal(text) => text,
        TokenView::Punct(ch, _) => seq![ch],
        TokenView::Group(delimiter, inner) => seq![open_mark(delimiter)] + stream_text(inner)
            + seq![close_mark(delimiter)],
    }
}

/// The text of a stream: the texts of its tokens in order, each pair parted
/// by [`gap_after`] of the first. The text form is this library's own;
/// texts that are compared with it must be written in it.
pub open spec fn stream_text(stream: Seq<TokenView>) -> Seq<char>
    decreases stream,
{
    if stream.len() == 0 {
        Seq::empty()
    } else if stream.len() == 1 {
        token_text(stream[0])
    } else {
        stream_text(stream.drop_last()) + gap_after(stream[stream.len() - 2]) + token_text(
            stream.last(),
        )
    }
}

/// A pattern that one token either fits or does not.
#[derive(Clone, Copy, PartialEq, Eq, Debug)]
pub enum TokenKind {
    /// Any identifier.
    Ident,
    /// Any literal.
    Literal,
    /// The punctuation mark with this character, whatever its spacing.
    Punct(char),
    /// A group enclosed by this bracket pair.
    Group(Delimiter),
    /// The identifier with this spelling, such as a keyword.
    Word(&'static str),
    /// Every token.
    Any,
}

impl TokenKind {
    pub open spec fn fits(self, token: TokenView) -> bool {
        match self {
            TokenKind::Ident => token.is_ident(),
            TokenKind::Literal => token.is_literal(),
            TokenKind::Punct(ch) => token.is_punct(ch),
            TokenKind::Group(delimiter) => token.is_group(delimiter),
            TokenKind::Word(word) => token.is_word(word@),
            TokenKind::Any => true,
        }
    }

    pub fn matches(&self, token: &Token) -> (b: bool)
        ensures
            b == self.fits(token.deep_view()),
    {
        match self {
            TokenKind::Ident => token.is_ident(),
            TokenKind::Literal => token.is_literal(),
            TokenKind::Punct(ch) => token.is_punct(*ch),
            TokenKind::Group(delimiter) => token.is_group(*delimiter),
            TokenKind::Word(word) => token.is_word(word),
            TokenKind::Any => true,
        }
    }
}

impl Token {
    /// The group that encloses `inner` in `delimiter`.
    pub fn group(delimiter: Delimiter, inner: Vec<Token>) -> (token: Token)
        ensures
            token.deep_view() == TokenView::Group(delimiter, inner.deep_view()),
    {
        proof {
            lemma_vec_view(inner);
        }
        Token::Group(delimiter, inner)
    }

    /// The tokens inside a group, if this is one.
    pub fn group_interior(&self) -> (inner: Option<&Vec<Token>>)
        ensures
            match inner {
                Some(tokens) => self.deep_view() is Group && tokens.deep_view()
                    == self.deep_view().interior(),
                None => !(self.deep_view() is Group),
            },
    {
        match self {
            Token::Group(_, inner) => {
                proof {
                    lemma_vec_view(*inner);
                }
                Some(inner)
            },
            _ => None,
        }
    }

    /// The spelling of an identifier, if this is one.
    pub fn ident_name(&self) -> (name: Option<&String>)
        ensures
            match name {
                Some(text) => self.deep_view() == TokenView::Ident(text@),
                None => !self.deep_view().is_ident(),
            },
    {
        match self {
            Token::Ident(name) => Some(name),
            _ => None,
        }
    }
}

/// Copies the tokens of `tokens` from index `from` up to, not including, `to`.
pub fn clone_range(tokens: &Vec<Token>, from: usize, to: usize) -> (copy: Vec<Token>)
    requires
        from <= to <= tokens.len(),
    ensures
        copy.deep_view() == tokens.deep_view().subrange(from as int, to as int),
        copy.len() == to - from,
{
    let mut copy: Vec<Token> = Vec::new();
    let mut i: usize = from;
    while i < to
        invariant
            from <= i <= to <= tokens.len(),
            copy.len() == i - from,
            forall|j: int| 0 <= j < i - from ==> copy@[j].deep_view() == tokens@[from + j].deep_view(),
        decreases to - i,
    {
        copy.push(tokens[i].clone());
        i += 1;
    }
    assert(copy.deep_view() =~= tokens.deep_view().subrange(from as int, to as int));
    copy
}

/// Copies a whole stream.
pub fn clone_tokens(tokens: &Vec<Token>) -> (copy: Vec<Token>)
    ensures
        copy.deep_view() == tokens.deep_view(),
        copy.len() == tokens.len(),
{
    let copy = clone_range(tokens, 0, tokens.len());
    assert(tokens.deep_view().subrange(0, tokens.len() as int) =~= tokens.deep_view());
    copy
}

/// Every token weighs at least one.
proof fn lemma_token_weight_positive(token: TokenView)
    ensures
        token_weight(token) >= 1,
{
}

/// The weight of two streams written one after the other is the sum of
/// their weights.
proof fn lemma_weight_add(a: Seq<TokenView>, b: Seq<TokenView>)
    ensures
        stream_weight(a + b) == stream_weight(a) + stream_weight(b),
    decreases b.len(),
{
    if b.len() == 0 {
        assert(a + b =~= a);
    } else {
        lemma_weight_add(a, b.drop_last());
        assert((a + b).drop_last() =~= a + b.drop_last());
        assert((a + b).last() == b.last());
    }
}

/// A stream weighs at least as many as it has tokens.
proof fn lemma_weight_len(stream: Seq<TokenView>)
    ensures
        stream_weight(stream) >= stream.len(),
    decreases stream.len(),
{
    if stream.len() > 0 {
        lemma_weight_len(stream.drop_last());
        lemma_token_weight_positive(stream.last());
    }
}

/// Cutting a stream in two leaves the weight of each part, and every token
/// that is cut off takes at least one away.
pub proof fn lemma_weight_split(stream: Seq<TokenView>, k: int)
    requires
        0 <= k <= stream.len(),
    ensures
        stream_weight(stream.take(k)) + stream_weight(stream.skip(k)) == stream_weight(stream),
        stream_weight(stream.take(k)) >= k,
        stream_weight(stream.skip(k)) >= stream.len() - k,
{
    lemma_weight_add(stream.take(k), stream.skip(k));
    assert(stream.take(k) + stream.skip(k) =~= stream);
    lemma_weight_len(stream.take(k));
    lemma_weight_len(stream.skip(k));
}

/// What is inside the group at the start of a stream weighs less than the
/// stream.
pub proof fn lemma_weight_interior(stream: Seq<TokenView>)
    requires
        stream.len() > 0,
        stream[0] is Group,
    ensures
        stream_weight(stream[0].interior()) < stream_weight(stream),
{
    lemma_weight_split(stream, 1);
    let first = stream.take(1);
    assert(first.drop_last() =~= Seq::<TokenView>::empty());
    assert(stream_weight(Seq::<TokenView>::empty()) == 0);
    assert(first.last() == stream[0]);
    assert(stream_weight(first) == stream_weight(first.drop_last()) + token_weight(first.last()));
}

} // verus!
