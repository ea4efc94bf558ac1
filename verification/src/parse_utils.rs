//! Scanning helpers: looking at what comes next, reading up to a stop token,
//! and carving out a templated body region.

use crate::cursor::Cursor;
use crate::error::{failure, result_view, Construct, ErrorKind, ErrorKindView, ParseError};
use crate::text::token_to_string;
use crate::token::clone_range;
use crate::token::{token_text, Delimiter, Token, TokenKind, TokenView};
use vstd::prelude::*;

verus! {

/// Index of the first token of `stream` for which `stop` holds; the length
/// of the stream if there is none.
pub open spec fn first_where(stream: Seq<TokenView>, stop: spec_fn(TokenView) -> bool) -> nat
    decreases stream.len(),
{
    if stream.len() == 0 {
        0
    } else if stop(stream[0]) {
        0
    } else {
        1 + first_where(stream.drop_first(), stop)
    }
}

/// Index of the first token of `stream` that fits `kind`; the length of the
/// stream if none does.
pub open spec fn first_fit(stream: Seq<TokenView>, kind: TokenKind) -> nat {
    first_where(stream, |t: TokenView| kind.fits(t))
}

/// [`first_where`] is the least index at which `stop` holds.
pub proof fn lemma_first_where(stream: Seq<TokenView>, stop: spec_fn(TokenView) -> bool)
    ensures
        first_where(stream, stop) <= stream.len(),
        forall|j: int| 0 <= j < first_where(stream, stop) ==> !stop(#[trigger] stream[j]),
        first_where(stream, stop) < stream.len() ==> stop(stream[first_where(stream, stop) as int]),
    decreases stream.len(),
{
    if stream.len() > 0 && !stop(stream[0]) {
        let tail = stream.drop_first();
        lemma_first_where(tail, stop);
        assert forall|j: int| 0 <= j < first_where(stream, stop) implies !stop(
            #[trigger] stream[j],
        ) by {
            if j > 0 {
                assert(stream[j] == tail[j - 1]);
            }
        }
    }
}

/// An index with no earlier stop, that is itself a stop or the end, is
/// [`first_where`].
pub(crate) proof fn lemma_first_where_is(
    stream: Seq<TokenView>,
    stop: spec_fn(TokenView) -> bool,
    i: int,
)
    requires
        0 <= i <= stream.len(),
        forall|j: int| 0 <= j < i ==> !stop(#[trigger] stream[j]),
        i < stream.len() ==> stop(stream[i]),
    ensures
        first_where(stream, stop) == i,
{
    lemma_first_where(stream, stop);
    let k = first_where(stream, stop) as int;
    if k < i {
        assert(!stop(stream[k]));
    }
}

/// The direction of the bracket mark that [`comes_next_any_surrounder`]
/// looks for.
#[derive(PartialEq, Eq, Structural, Debug, Clone, Copy)]
pub enum SurrounderDir {
    /// An opening mark: `{`, `(` or `[`.
    Forward,
    /// A closing mark: `}`, `)` or `]`.
    Backward,
    /// A whole group, of any bracket pair.
    Any,
}

/// Any one token.
#[derive(Debug, PartialEq, Eq)]
pub struct AnyParsable(pub Token);

impl DeepView for AnyParsable {
    type V = TokenView;

    open spec fn deep_view(&self) -> TokenView {
        self.0.deep_view()
    }
}

impl AnyParsable {
    /// Reads the next token, whatever it is. At the end of the stream there
    /// is none to read: the cursor stays and the error says that no token
    /// was found.
    pub fn parse(cursor: &mut Cursor) -> (result: Result<AnyParsable, ParseError>)
        ensures
            final(cursor).stream() == old(cursor).stream(),
            result_view(result) == if old(cursor).rest().len() > 0 {
                Ok::<TokenView, _>(old(cursor).rest()[0])
            } else {
                Err(
                    failure(
                        ErrorKindView::NoMatchFound { expected: TokenKind::Any },
                        Seq::empty(),
                        Construct::Scan,
                    ),
                )
            },
            final(cursor).position() == old(cursor).position() + if result is Ok {
                1nat
            } else {
                0nat
            },
            final(cursor).rest() == if result is Ok {
                old(cursor).rest().skip(1)
            } else {
                old(cursor).rest()
            },
    {
        match cursor.next() {
            Some(token) => Ok(AnyParsable(token.clone())),
            None => {
                let left: Vec<Token> = Vec::new();
                assert(left.deep_view() =~= Seq::empty());
                Err(
                    ParseError::new(
                        ErrorKind::NoMatchFound { expected: TokenKind::Any },
                        left,
                        Construct::Scan,
                    ),
                )
            },
        }
    }

    /// The token, as a stream of one.
    pub fn to_tokens(&self) -> (tokens: Vec<Token>)
        ensures
            tokens.deep_view() == seq![self.deep_view()],
    {
        let mut tokens: Vec<Token> = Vec::new();
        tokens.push(self.0.clone());
        assert(tokens.deep_view() =~= seq![self.deep_view()]);
        tokens
    }
}

/// Whether the next token fits `starter`.
pub fn comes_next(cursor: &Cursor, starter: TokenKind) -> (b: bool)
    ensures
        b == (cursor.rest().len() > 0 && starter.fits(cursor.rest()[0])),
{
    match cursor.peek(0) {
        Some(token) => starter.matches(token),
        None => false,
    }
}

/// Whether the next token is the statement end `;`.
pub fn ends_next(cursor: &Cursor) -> (b: bool)
    ensures
        b == (cursor.rest().len() > 0 && cursor.rest()[0].is_punct(';')),
{
    comes_next(cursor, TokenKind::Punct(';'))
}

/// Whether the stream starts with the statement end `;`.
pub fn ts_ends_next(tokens: &Vec<Token>) -> (b: bool)
    ensures
        b == (tokens.deep_view().len() > 0 && tokens.deep_view()[0].is_punct(';')),
{
    tokens.len() > 0 && tokens[0].is_punct(';')
}

/// What [`comes_next_any_surrounder`] asks of the next token.
pub open spec fn is_surrounder(token: TokenView, dir: SurrounderDir) -> bool {
    match dir {
        SurrounderDir::Any => token is Group,
        SurrounderDir::Forward => token.is_punct('{') || token.is_punct('(') || token.is_punct(
            '[',
        ),
        SurrounderDir::Backward => token.is_punct('}') || token.is_punct(')') || token.is_punct(
            ']',
        ),
    }
}

/// Whether the next token is a surrounder in the direction `dir`: a whole
/// group for `Any`, a lone opening mark for `Forward`, a lone closing mark
/// for `Backward`. At the end of the stream nothing comes next.
pub fn comes_next_any_surrounder(cursor: &Cursor, dir: SurrounderDir) -> (b: bool)
    ensures
        b == (cursor.rest().len() > 0 && is_surrounder(cursor.rest()[0], dir)),
{
    match cursor.peek(0) {
        None => false,
        Some(token) => match dir {
            SurrounderDir::Any => token.is_group(Delimiter::Parenthesis) || token.is_group(
                Delimiter::Brace,
            ) || token.is_group(Delimiter::Bracket),
            SurrounderDir::Forward => token.is_punct('{') || token.is_punct('(')
                || token.is_punct('['),
            SurrounderDir::Backward => token.is_punct('}') || token.is_punct(')')
                || token.is_punct(']'),
        },
    }
}

/// Reads tokens up to, not including, the first that fits `end`, or to the
/// end of the stream, and returns copies of them.
pub fn parse_until(cursor: &mut Cursor, end: TokenKind) -> (taken: Vec<Token>)
    ensures
        final(cursor).stream() == old(cursor).stream(),
        taken.deep_view() == old(cursor).rest().take(first_fit(old(cursor).rest(), end) as int),
        final(cursor).position() == old(cursor).position() + first_fit(old(cursor).rest(), end),
        final(cursor).rest() == old(cursor).rest().skip(first_fit(old(cursor).rest(), end) as int),
        first_fit(old(cursor).rest(), end) <= old(cursor).rest().len(),
        taken.len() == first_fit(old(cursor).rest(), end),
        forall|j: int| 0 <= j < taken.len() ==> !end.fits(#[trigger] old(cursor).rest()[j]),
        taken.len() < old(cursor).rest().len() ==> end.fits(
            old(cursor).rest()[taken.len() as int],
        ),
{
    let ghost rest = cursor.rest();
    let ghost stop = |t: TokenView| end.fits(t);
    let total = cursor.len();
    let mut n: usize = 0;
    loop
        invariant
            total == rest.len(),
            cursor.stream() == old(cursor).stream(),
            cursor.position() == old(cursor).position(),
            rest == cursor.rest(),
            stop == (|t: TokenView| end.fits(t)),
            n <= rest.len(),
            forall|j: int| 0 <= j < n ==> !stop(#[trigger] rest[j]),
        ensures
            n <= rest.len(),
            first_where(rest, stop) == n,
        decreases rest.len() - n,
    {
        match cursor.peek(n) {
            Some(token) => {
                if end.matches(token) {
                    proof {
                        lemma_first_where_is(rest, stop, n as int);
                    }
                    break ;
                }
                n += 1;
            },
            None => {
                proof {
                    lemma_first_where_is(rest, stop, n as int);
                }
                break ;
            },
        }
    }
    proof {
        lemma_first_where(rest, stop);
        assert forall|j: int| 0 <= j < n implies !end.fits(#[trigger] rest[j]) by {
            assert(!stop(rest[j]));
        }
        if n < rest.len() {
            assert(stop(rest[n as int]));
        }
    }
    cursor.take(n)
}

/// Reads tokens up to, not including, the first that fits `end`, or to the
/// end of the stream. This is [`parse_until`] under the name that callers
/// use when `end` is a group, as before a body in braces.
pub fn parse_peekables_until(cursor: &mut Cursor, end: TokenKind) -> (taken: Vec<Token>)
    ensures
        final(cursor).stream() == old(cursor).stream(),
        taken.deep_view() == old(cursor).rest().take(first_fit(old(cursor).rest(), end) as int),
        final(cursor).position() == old(cursor).position() + first_fit(old(cursor).rest(), end),
        final(cursor).rest() == old(cursor).rest().skip(first_fit(old(cursor).rest(), end) as int),
        first_fit(old(cursor).rest(), end) <= old(cursor).rest().len(),
        taken.len() == first_fit(old(cursor).rest(), end),
        forall|j: int| 0 <= j < taken.len() ==> !end.fits(#[trigger] old(cursor).rest()[j]),
        taken.len() < old(cursor).rest().len() ==> end.fits(
            old(cursor).rest()[taken.len() as int],
        ),
{
    parse_until(cursor, end)
}

/// Reads tokens up to, not including, the first whose text is the text of
/// `end`, or to the end of the stream, and returns copies of them.
pub fn parse_peeks_until(cursor: &mut Cursor, end: &Token) -> (taken: Vec<Token>)
    ensures
        final(cursor).stream() == old(cursor).stream(),
        ({
            let stop = |t: TokenView| token_text(t) == token_text(end.deep_view());
            let n = first_where(old(cursor).rest(), stop);
            &&& n <= old(cursor).rest().len()
            &&& taken.deep_view() == old(cursor).rest().take(n as int)
            &&& final(cursor).position() == old(cursor).position() + n
            &&& final(cursor).rest() == old(cursor).rest().skip(n as int)
        }),
{
    let ghost rest = cursor.rest();
    let ghost stop = |t: TokenView| token_text(t) == token_text(end.deep_view());
    let wanted = token_to_string(end);
    let total = cursor.len();
    let mut n: usize = 0;
    loop
        invariant
            total == rest.len(),
            cursor.stream() == old(cursor).stream(),
            cursor.position() == old(cursor).position(),
            rest == cursor.rest(),
            stop == (|t: TokenView| token_text(t) == token_text(end.deep_view())),
            wanted@ == token_text(end.deep_view()),
            n <= rest.len(),
            forall|j: int| 0 <= j < n ==> !stop(#[trigger] rest[j]),
        ensures
            n <= rest.len(),
            first_where(rest, stop) == n,
        decreases rest.len() - n,
    {
        match cursor.peek(n) {
            Some(token) => {
                let text = token_to_string(token);
                if text == wanted {
                    proof {
                        lemma_first_where_is(rest, stop, n as int);
                    }
                    break ;
                }
                n += 1;
            },
            None => {
                proof {
                    lemma_first_where_is(rest, stop, n as int);
                }
                break ;
            },
        }
    }
    cursor.take(n)
}

/// The tokens inside the group that `stream` starts with, if it starts with
/// a group in `delimiter`; else `stream` itself. What follows such a group
/// is left out.
pub open spec fn unwrap_stream(stream: Seq<TokenView>, delimiter: Delimiter) -> Seq<TokenView> {
    if stream.len() > 0 && stream[0].is_group(delimiter) {
        stream[0].interior()
    } else {
        stream
    }
}

/// The stream to parse in place of `tokens`: the inside of its enclosing
/// bracket pair, where it starts with one.
pub fn unwrap_input(tokens: &Vec<Token>, delimiter: Delimiter) -> (inner: &Vec<Token>)
    ensures
        inner.deep_view() == unwrap_stream(tokens.deep_view(), delimiter),
{
    if tokens.len() > 0 && tokens[0].is_group(delimiter) {
        match tokens[0].group_interior() {
            Some(inner) => inner,
            None => tokens,
        }
    } else {
        tokens
    }
}

/// `text` without the white space at its start and at its end, as
/// `str::trim` gives it.
pub uninterp spec fn trimmed(text: Seq<char>) -> Seq<char>;

/// `str::trim`: the slice of `text` without leading and trailing white
/// space, which depends on the characters of `text` alone.
#[verifier::external_body]
fn trim_text(text: &str) -> (short: &str)
    ensures
        short@ == trimmed(text@),
{
    text.trim()
}

/// Index of the first of `texts` that is `wanted`; the number of texts if
/// none is.
pub open spec fn first_text(texts: Seq<Seq<char>>, wanted: Seq<char>) -> nat
    decreases texts.len(),
{
    if texts.len() == 0 || texts[0] == wanted {
        0
    } else {
        1 + first_text(texts.drop_first(), wanted)
    }
}

/// Index of the first of `texts` that is `wanted`; the number of texts if
/// none is: no text before it is `wanted`, and the one at it is.
pub fn first_equal(texts: &Vec<String>, wanted: &String) -> (n: usize)
    ensures
        n == first_text(texts.deep_view(), wanted@),
        n <= texts.len(),
        forall|j: int| 0 <= j < n ==> texts@[j]@ != wanted@,
        n < texts.len() ==> texts@[n as int]@ == wanted@,
{
    let ghost views = texts.deep_view();
    let mut n: usize = 0;
    assert(views.skip(0) =~= views);
    while n < texts.len() && !(texts[n] == *wanted)
        invariant
            n <= texts.len(),
            views == texts.deep_view(),
            forall|j: int| 0 <= j < n ==> texts@[j]@ != wanted@,
            first_text(views, wanted@) == n + first_text(views.skip(n as int), wanted@),
        decreases texts.len() - n,
    {
        proof {
            let rest = views.skip(n as int);
            assert(rest[0] == texts@[n as int]@);
            assert(rest.drop_first() =~= views.skip(n + 1));
        }
        n += 1;
    }
    proof {
        let rest = views.skip(n as int);
        if n < texts.len() {
            assert(rest[0] == texts@[n as int]@);
        }
        assert(views.skip(0) =~= views);
    }
    n
}

/// The texts of the tokens of `stream`, each without the white space at
/// its start and at its end.
pub open spec fn trimmed_texts(stream: Seq<TokenView>) -> Seq<Seq<char>> {
    Seq::new(stream.len(), |i: int| trimmed(token_text(stream[i])))
}

/// Copies the tokens of `input` up to, not including, the first whose
/// text is `end`, white space at either end of both left aside; all of them
/// if there is none. The text of a token is the one that
/// [`token_text`](crate::token::token_text) gives, so `end` must be written
/// in that form: a group in braces as `{a b}`, without blanks inside the
/// braces.
pub fn parse_tokens_until(input: &Vec<Token>, end: &str) -> (taken: Vec<Token>)
    ensures
        taken.deep_view() == input.deep_view().take(
            first_text(trimmed_texts(input.deep_view()), trimmed(end@)) as int,
        ),
        first_text(trimmed_texts(input.deep_view()), trimmed(end@)) <= input.len(),
{
    let wanted = String::from_str(trim_text(end));
    let mut texts: Vec<String> = Vec::new();
    let mut i: usize = 0;
    while i < input.len()
        invariant
            i <= input.len(),
            texts.len() == i,
            forall|j: int|
                0 <= j < i ==> texts@[j]@ == trimmed(token_text(input.deep_view()[j])),
        decreases input.len() - i,
    {
        let text = token_to_string(&input[i]);
        texts.push(String::from_str(trim_text(text.as_str())));
        i += 1;
    }
    assert(texts.deep_view() =~= trimmed_texts(input.deep_view()));
    let n = first_equal(&texts, &wanted);
    clone_range(input, 0, n)
}

/// Whether a token closes a brace: the mark `}` on its own, or a whole
/// group in braces.
pub open spec fn closes_brace(token: TokenView) -> bool {
    token.is_punct('}') || token.is_group(Delimiter::Brace)
}

/// Whether the token at `j` is the marker `#` and the token before it
/// closes a brace.
pub open spec fn marker_after_close(stream: Seq<TokenView>, j: int) -> bool {
    0 < j < stream.len() && stream[j].is_punct('#') && closes_brace(stream[j - 1])
}

/// The first index from `from` on at which [`marker_after_close`] holds;
/// the length of the stream if there is none.
pub open spec fn region_end_from(stream: Seq<TokenView>, from: int) -> int
    decreases stream.len() - from,
{
    if from >= stream.len() {
        stream.len() as int
    } else if marker_after_close(stream, from) {
        from
    } else {
        region_end_from(stream, from + 1)
    }
}

/// Where a body region that starts at the start of `stream` ends: before
/// the first marker `#` that comes directly after a closed brace.
pub open spec fn region_end(stream: Seq<TokenView>) -> int {
    region_end_from(stream, 0)
}

/// The change that one token makes to the brace depth.
pub open spec fn brace_step(token: TokenView) -> int {
    if token.is_punct('{') {
        1
    } else if token.is_punct('}') {
        -1
    } else {
        0
    }
}

/// Opening brace marks less closing brace marks in `stream`.
pub open spec fn brace_balance(stream: Seq<TokenView>) -> int
    decreases stream.len(),
{
    if stream.len() == 0 {
        0
    } else {
        brace_balance(stream.drop_last()) + brace_step(stream.last())
    }
}

/// [`region_end`] is the least index at which [`marker_after_close`]
/// holds, or the length of the stream.
proof fn lemma_region_end(stream: Seq<TokenView>, from: int)
    requires
        0 <= from <= stream.len(),
    ensures
        from <= region_end_from(stream, from) <= stream.len(),
        forall|j: int|
            from <= j < region_end_from(stream, from) ==> !marker_after_close(stream, j),
        region_end_from(stream, from) < stream.len() ==> marker_after_close(
            stream,
            region_end_from(stream, from),
        ),
    decreases stream.len() - from,
{
    if from < stream.len() && !marker_after_close(stream, from) {
        lemma_region_end(stream, from + 1);
    }
}

/// Reads a body region. The brace marks `{` and `}` are counted from
/// `depth`: an opening mark adds one, a closing mark takes one away. The
/// region ends before a marker `#` in two cases: where a closing mark has
/// brought the count to one or below and the marker is the next token, and
/// where the marker comes directly after a closed brace, be it a closing
/// mark or a whole group in braces. The first case is one of the second, so
/// the region ends before the first marker that comes directly after a
/// closed brace, or at the end of the stream. A stream that ends without
/// such a marker while the count is above zero lacks a closing brace: that
/// is an error, and the cursor stays where it was.
#[verifier::rlimit(40)]
pub fn find_end_of_widget_body(cursor: &mut Cursor, depth: u32) -> (result: Result<
    Vec<Token>,
    ParseError,
>)
    ensures
        final(cursor).stream() == old(cursor).stream(),
        0 <= region_end(old(cursor).rest()) <= old(cursor).rest().len(),
        forall|j: int|
            0 <= j < region_end(old(cursor).rest()) ==> !marker_after_close(
                old(cursor).rest(),
                j,
            ),
        region_end(old(cursor).rest()) < old(cursor).rest().len() ==> marker_after_close(
            old(cursor).rest(),
            region_end(old(cursor).rest()),
        ),
        ({
            let rest = old(cursor).rest();
            let stop = region_end(rest);
            match result {
                Ok(region) => (stop < rest.len() || depth + brace_balance(rest) <= 0)
                    && region.deep_view() == rest.take(stop) && final(cursor).position() == old(cursor).position() + stop && final(cursor).rest() == rest.skip(stop),
                Err(error) => stop == rest.len() && depth + brace_balance(rest) > 0
                    && error.deep_view() == failure(
                    ErrorKindView::UnbalancedGroup,
                    Seq::empty(),
                    Construct::Scan,
                ) && final(cursor).position() == old(cursor).position(),
            }
        }),
{
    let ghost rest = cursor.rest();
    proof {
        lemma_region_end(rest, 0);
    }
    let total = cursor.len();
    let mut i: usize = 0;
    let mut level: i128 = depth as i128;
    let mut stopped = false;
    assert(rest.take(0) =~= Seq::<TokenView>::empty());
    while i < total && !stopped
        invariant
            total == rest.len(),
            rest == cursor.rest(),
            cursor.stream() == old(cursor).stream(),
            cursor.position() == old(cursor).position(),
            i <= total,
            level == depth + brace_balance(rest.take(i as int)),
            -i <= brace_balance(rest.take(i as int)) <= i,
            !stopped ==> region_end_from(rest, i as int) == region_end(rest),
            stopped ==> region_end(rest) == i && i < total,
        decreases total - i + if stopped { 0int } else { 1int },
    {
        let token = cursor.at(i);
        let marker_here = token.is_punct('#') && i > 0 && {
            let before = cursor.at(i - 1);
            before.is_punct('}') || before.is_group(Delimiter::Brace)
        };
        if marker_here {
            assert(marker_after_close(rest, i as int));
            stopped = true;
        } else {
            proof {
                let next = rest.take(i + 1);
                assert(next.drop_last() =~= rest.take(i as int));
                assert(next.last() == rest[i as int]);
                assert(!marker_after_close(rest, i as int));
                assert(region_end_from(rest, i as int) == region_end_from(rest, i + 1));
            }
            if token.is_punct('{') {
                level = level + 1;
                i += 1;
            } else if token.is_punct('}') {
                level = level - 1;
                i += 1;
                if level <= 1 && i < total {
                    if cursor.at(i).is_punct('#') {
                        assert(marker_after_close(rest, i as int));
                        stopped = true;
                    }
                }
            } else {
                i += 1;
            }
        }
    }
    if !stopped {
        assert(rest.take(total as int) =~= rest);
    }
    if !stopped && level > 0 {
        let left: Vec<Token> = Vec::new();
        assert(left.deep_view() =~= Seq::empty());
        Err(ParseError::new(ErrorKind::UnbalancedGroup, left, Construct::Scan))
    } else {
        Ok(cursor.take(i))
    }
}

} // verus!
