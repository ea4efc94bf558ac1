//! Parameters: `pub mut name: Type(args) = default`, each part but the
//! type optional.

use crate::cursor::Cursor;
use crate::define::Define;
use crate::error::{failure, result_view, Construct, ErrorKind, ErrorKindView, ParseError, ParseErrorView};
use crate::find_first::{first_of, ParseFirst};
use crate::grammar::Grammar;
use crate::parse_utils::{unwrap_input, unwrap_stream};
use crate::punct_set::{
    collect, collected, join, lemma_collected, list_outcome, raw_set, separator, set_fits, split, stretches, write_joined, PunctSet, PunctSetView,
};
use crate::text::{stream_to_string, write_stream};
use crate::token::{clone_tokens, stream_text, Delimiter, Spacing, Token, TokenKind, TokenView};
use vstd::prelude::*;

verus! {

/// One parameter. Without a name it is known by its type.
#[derive(Debug, PartialEq, Eq)]
pub struct Param {
    pub publicity: bool,
    pub mutability: bool,
    pub name: Option<String>,
    pub ty: Vec<Token>,
    pub tuple_args: Option<PunctSet<Vec<Token>>>,
    pub default_val: Option<(Token, Vec<Token>)>,
}

/// The mathematical value of a [`Param`].
pub struct ParamView {
    pub publicity: bool,
    pub mutability: bool,
    pub name: Option<Seq<char>>,
    pub ty: Seq<TokenView>,
    pub tuple_args: Option<PunctSetView<Seq<TokenView>>>,
    pub default_val: Option<(TokenView, Seq<TokenView>)>,
}

impl DeepView for Param {
    type V = ParamView;

    open spec fn deep_view(&self) -> ParamView {
        ParamView {
            publicity: self.publicity,
            mutability: self.mutability,
            name: self.name.deep_view(),
            ty: self.ty.deep_view(),
            tuple_args: self.tuple_args.deep_view(),
            default_val: self.default_val.deep_view(),
        }
    }
}

/// A list of parameters parted by commas.
pub type Params = PunctSet<Param>;

/// What stands in front of a parameter's type, and how many tokens it takes.
pub struct ParamHeadView {
    pub publicity: bool,
    pub mutability: bool,
    pub name: Option<Seq<char>>,
    pub len: nat,
}

/// The head of the parameter at the start of `stream`: the word `pub` if it
/// is there, then the word `mut` if it is there, then a name where the two
/// tokens after the next are a colon and an identifier. Such a colon with
/// no identifier in front of it is an error.
pub open spec fn param_head(stream: Seq<TokenView>) -> Result<ParamHeadView, ParseErrorView> {
    let publicity = stream.len() > 0 && stream[0].is_word("pub"@);
    let a: int = if publicity {
        1
    } else {
        0
    };
    let mutability = stream.len() > a && stream[a].is_word("mut"@);
    let b: int = if mutability {
        a + 1
    } else {
        a
    };
    let named = stream.len() > b + 2 && stream[b + 1].is_punct(':') && stream[b + 2].is_ident();
    if !named {
        Ok(ParamHeadView { publicity, mutability, name: None, len: b as nat })
    } else if stream[b].is_ident() {
        Ok(
            ParamHeadView {
                publicity,
                mutability,
                name: Some(stream[b].spelling()),
                len: (b + 2) as nat,
            },
        )
    } else {
        Err(failure(ErrorKindView::MalformedName, stream.skip(b), Construct::Param))
    }
}

/// The first token of a stream, if it has one.
pub open spec fn head_token(stream: Seq<TokenView>) -> Option<TokenView> {
    if stream.len() > 0 {
        Some(stream[0])
    } else {
        None
    }
}

/// A length that a grammar may give for a stream of `available` tokens: at
/// least one token and no more than there are.
pub open spec fn valid_len(len: Option<nat>, available: nat) -> bool {
    len matches Some(n) && 0 < n <= available
}

/// A length as a natural number.
pub open spec fn len_view(len: Option<usize>) -> Option<nat> {
    match len {
        Some(n) => Some(n as nat),
        None => None,
    }
}

/// The length of the type expression at the start of `stream`, where the
/// type grammar gave `ty_len` for it. Without a valid length there is no
/// type: that is an error that names the first token.
pub open spec fn param_type(stream: Seq<TokenView>, ty_len: Option<nat>) -> Result<
    nat,
    ParseErrorView,
> {
    if valid_len(ty_len, stream.len()) {
        Ok(ty_len->0)
    } else {
        Err(
            failure(
                ErrorKindView::ExpectedType { actual: head_token(stream) },
                stream,
                Construct::Param,
            ),
        )
    }
}

/// Where the group of arguments stands in `stream`: one token after its
/// start if a group in parentheses stands there, else at its start if one
/// stands there, else nowhere.
pub open spec fn args_offset(stream: Seq<TokenView>) -> Option<nat> {
    if stream.len() > 1 && stream[1].is_group(Delimiter::Parenthesis) {
        Some(1)
    } else if stream.len() > 0 && stream[0].is_group(Delimiter::Parenthesis) {
        Some(0)
    } else {
        None
    }
}

/// The tuple arguments at the start of `stream`, and how many tokens they
/// take: the group found by [`args_offset`], read inside as raw stretches
/// parted by commas, and the token in front of it, if any, dropped.
pub open spec fn param_args(stream: Seq<TokenView>) -> Result<
    (Option<PunctSetView<Seq<TokenView>>>, nat),
    ParseErrorView,
> {
    match args_offset(stream) {
        None => Ok((None, 0)),
        Some(at) => match raw_set(stream[at as int].interior(), ',') {
            Ok(set) => Ok((Some(set), at + 1)),
            Err(error) => Err(error.within(Construct::Param)),
        },
    }
}

/// The default value at the start of `stream`, and how many tokens it
/// takes, where the expression grammar gave `default_len` for what follows
/// the marker `=`: the marker and that many tokens after it. A marker
/// without a valid length after it is an error. Without a marker there is
/// no default, whatever the length.
pub open spec fn param_default(stream: Seq<TokenView>, default_len: Option<nat>) -> Result<
    (Option<(TokenView, Seq<TokenView>)>, nat),
    ParseErrorView,
> {
    if stream.len() > 0 && stream[0].is_punct('=') {
        if valid_len(default_len, (stream.len() - 1) as nat) {
            let n = default_len->0;
            Ok((Some((stream[0], stream.skip(1).take(n as int))), n + 1))
        } else {
            Err(failure(ErrorKindView::MissingValue, stream.skip(1), Construct::Param))
        }
    } else {
        Ok((None, 0))
    }
}

/// The parameter at the start of `stream`, and how many tokens it takes,
/// where the type grammar gave `ty_len` for what follows the head and the
/// expression grammar gave `default_len` for what follows the marker:
/// head, type, tuple arguments, default value, each read where the one
/// before ends.
#[verifier::opaque]
pub open spec fn parse_param(
    stream: Seq<TokenView>,
    ty_len: Option<nat>,
    default_len: Option<nat>,
) -> Result<(ParamView, nat), ParseErrorView> {
    match param_head(stream) {
        Err(error) => Err(error),
        Ok(head) => {
            let s1 = stream.skip(head.len as int);
            match param_type(s1, ty_len) {
                Err(error) => Err(error),
                Ok(n) => {
                    let s2 = s1.skip(n as int);
                    match param_args(s2) {
                        Err(error) => Err(error),
                        Ok((tuple_args, a)) => {
                            let s3 = s2.skip(a as int);
                            match param_default(s3, default_len) {
                                Err(error) => Err(error),
                                Ok((default_val, d)) => Ok(
                                    (
                                        ParamView {
                                            publicity: head.publicity,
                                            mutability: head.mutability,
                                            name: head.name,
                                            ty: s1.take(n as int),
                                            tuple_args,
                                            default_val,
                                        },
                                        head.len + n + a + d,
                                    ),
                                ),
                            }
                        },
                    }
                },
            }
        },
    }
}

/// The length of a parameter's default value, if it has one.
pub open spec fn default_len_of(param: ParamView) -> Option<nat> {
    match param.default_val {
        Some((_, value)) => Some(value.len()),
        None => None,
    }
}

/// `param` is a reading of the start of `stream` that takes `taken`
/// tokens: it is what [`parse_param`] gives where the two grammars give the
/// lengths of the type and of the default value that `param` holds.
pub open spec fn param_reads(stream: Seq<TokenView>, param: ParamView, taken: nat) -> bool {
    parse_param(stream, Some(param.ty.len()), default_len_of(param)) == Ok::<_, ParseErrorView>(
        (param, taken),
    )
}

/// A parameter that was read holds the lengths that the grammars gave.
pub proof fn lemma_param_reads(
    stream: Seq<TokenView>,
    ty_len: Option<nat>,
    default_len: Option<nat>,
)
    requires
        parse_param(stream, ty_len, default_len) is Ok,
    ensures
        param_reads(
            stream,
            parse_param(stream, ty_len, default_len)->Ok_0.0,
            parse_param(stream, ty_len, default_len)->Ok_0.1,
        ),
{
    reveal(parse_param);
}

/// A parameter is read by reading its four parts one after the other, and
/// the first part that is not read gives the error.
pub proof fn lemma_parse_param_parts(
    stream: Seq<TokenView>,
    ty_len: Option<nat>,
    default_len: Option<nat>,
)
    ensures
        match param_head(stream) {
            Err(error) => parse_param(stream, ty_len, default_len) == Err::<(ParamView, nat), _>(
                error,
            ),
            Ok(head) => match param_type(stream.skip(head.len as int), ty_len) {
                Err(error) => parse_param(stream, ty_len, default_len) == Err::<
                    (ParamView, nat),
                    _,
                >(error),
                Ok(n) => match param_args(stream.skip(head.len as int).skip(n as int)) {
                    Err(error) => parse_param(stream, ty_len, default_len) == Err::<
                        (ParamView, nat),
                        _,
                    >(error),
                    Ok((tuple_args, a)) => match param_default(
                        stream.skip(head.len as int).skip(n as int).skip(a as int),
                        default_len,
                    ) {
                        Err(error) => parse_param(stream, ty_len, default_len) == Err::<
                            (ParamView, nat),
                            _,
                        >(error),
                        Ok((default_val, d)) => parse_param(stream, ty_len, default_len) == Ok::<
                            _,
                            ParseErrorView,
                        >(
                            (
                                ParamView {
                                    publicity: head.publicity,
                                    mutability: head.mutability,
                                    name: head.name,
                                    ty: stream.skip(head.len as int).take(n as int),
                                    tuple_args,
                                    default_val,
                                },
                                head.len + n + a + d,
                            ),
                        ),
                    },
                },
            },
        },
{
    reveal(parse_param);
}

/// How the outcome of reading a parameter relates to the lengths that the
/// grammars gave: the parameter or the error of [`parse_param`], and the
/// number of tokens passed over, none on an error.
pub open spec fn param_outcome(
    stream: Seq<TokenView>,
    ty_len: Option<nat>,
    default_len: Option<nat>,
    result: Result<ParamView, ParseErrorView>,
    moved: int,
) -> bool {
    match parse_param(stream, ty_len, default_len) {
        Ok((param, n)) => result == Ok::<_, ParseErrorView>(param) && moved == n,
        Err(error) => result == Err::<ParamView, _>(error) && moved == 0,
    }
}

/// The written form of a parameter's name: the name and a colon.
pub open spec fn name_part(name: Option<Seq<char>>) -> Seq<TokenView> {
    match name {
        Some(name) => seq![TokenView::Ident(name), TokenView::Punct(':', Spacing::Alone)],
        None => Seq::empty(),
    }
}

/// The written form of a parameter's tuple arguments: one group.
pub open spec fn args_part(param: ParamView) -> Seq<TokenView> {
    match param.tuple_args {
        Some(set) => seq![TokenView::Group(Delimiter::Parenthesis, join(set.vals, set.delim))],
        None => Seq::empty(),
    }
}

/// The written form of a parameter's default value: marker and value.
pub open spec fn default_part(param: ParamView) -> Seq<TokenView> {
    match param.default_val {
        Some((marker, value)) => seq![marker] + value,
        None => Seq::empty(),
    }
}

/// The written form of a parameter from its type on.
pub open spec fn type_onwards(param: ParamView) -> Seq<TokenView> {
    param.ty + args_part(param) + default_part(param)
}

/// The written form of a parameter from its name on.
pub open spec fn name_onwards(param: ParamView) -> Seq<TokenView> {
    name_part(param.name) + type_onwards(param)
}

/// The written form of a parameter after the word `pub`.
pub open spec fn mut_onwards(param: ParamView) -> Seq<TokenView> {
    (if param.mutability {
        seq![TokenView::Ident("mut"@)]
    } else {
        Seq::empty()
    }) + name_onwards(param)
}

/// The written form of a parameter: the word `pub` where it is public,
/// the word `mut` where it is mutable, its name and a colon, its type, its
/// tuple arguments in parentheses, and the marker and value of its default.
pub open spec fn param_tokens(param: ParamView) -> Seq<TokenView> {
    (if param.publicity {
        seq![TokenView::Ident("pub"@)]
    } else {
        Seq::empty()
    }) + mut_onwards(param)
}

/// A parameter as text: `[pub ][mut ][name: ]type[(args)][ = default]`.
pub open spec fn param_text(param: ParamView) -> Seq<char> {
    (if param.publicity {
        "pub "@
    } else {
        Seq::empty()
    }) + (if param.mutability {
        "mut "@
    } else {
        Seq::empty()
    }) + (match param.name {
        Some(name) => name + ": "@,
        None => Seq::empty(),
    }) + stream_text(param.ty) + (match param.tuple_args {
        Some(set) => "("@ + stream_text(join(set.vals, set.delim)) + ")"@,
        None => Seq::empty(),
    }) + (match param.default_val {
        Some((_, value)) => " = "@ + stream_text(value),
        None => Seq::empty(),
    })
}

/// Where the length of an expression comes from: from the grammar, or
/// from the caller, who gives the length that the grammar would give, or
/// none.
#[derive(Clone, Copy, Debug)]
pub enum Extent {
    Ask,
    Given(Option<usize>),
}

/// How the outcome of reading a default value relates to the length that
/// the expression grammar gave: the value or the error of
/// [`param_default`], and the number of tokens passed over, none on an
/// error.
pub open spec fn default_outcome(
    stream: Seq<TokenView>,
    default_len: Option<nat>,
    result: Result<Option<(TokenView, Seq<TokenView>)>, ParseErrorView>,
    moved: int,
) -> bool {
    match param_default(stream, default_len) {
        Ok((default_val, n)) => result == Ok::<_, ParseErrorView>(default_val) && moved == n,
        Err(error) => result == Err::<Option<(TokenView, Seq<TokenView>)>, _>(error) && moved
            == 0,
    }
}

/// The length of the value in the outcome of reading a default value, if
/// a value was read.
pub open spec fn used_len(
    result: Result<Option<(TokenView, Seq<TokenView>)>, ParseErrorView>,
) -> Option<nat> {
    match result {
        Ok(Some((_, value))) => Some(value.len()),
        _ => None,
    }
}

/// Takes the expression at the cursor, of the length that `grammar` gives
/// or that `extent` gives in its place: a prefix of at least one token, or
/// nothing, with the cursor left where it was.
pub fn read_extent(grammar: Grammar, cursor: &mut Cursor, extent: Extent) -> (taken: Option<
    Vec<Token>,
>)
    ensures
        final(cursor).stream() == old(cursor).stream(),
        match taken {
            Some(tokens) => 0 < tokens.len() <= old(cursor).rest().len() && tokens.deep_view()
                == old(cursor).rest().take(tokens.len() as int) && final(cursor).position() == old(cursor).position() + tokens.len() && final(cursor).rest() == old(cursor).rest().skip(
                tokens.len() as int,
            ),
            None => final(cursor).position() == old(cursor).position() && final(cursor).rest()
                == old(cursor).rest(),
        },
        extent matches Extent::Given(len) ==> (taken is Some <==> valid_len(
            len_view(len),
            old(cursor).rest().len(),
        )) && (taken is Some ==> Some(taken->0.len()) == len),
{
    match extent {
        Extent::Ask => grammar.read(cursor),
        Extent::Given(len) => match len {
            Some(n) => if 0 < n && n <= cursor.len() {
                Some(cursor.take(n))
            } else {
                None
            },
            None => None,
        },
    }
}

impl Param {
    /// Reads what stands in front of the type: `pub`, `mut` and the name.
    /// On an error the cursor stays where it was.
    pub fn parse_head(cursor: &mut Cursor) -> (result: Result<
        (bool, bool, Option<String>),
        ParseError,
    >)
        ensures
            final(cursor).stream() == old(cursor).stream(),
            match result {
                Ok((publicity, mutability, name)) => param_head(old(cursor).rest()) matches Ok(
                    head,
                ) && head.publicity == publicity && head.mutability == mutability && head.name
                    == name.deep_view() && final(cursor).position() == old(cursor).position()
                    + head.len && final(cursor).rest() == old(cursor).rest().skip(head.len as int),
                Err(error) => param_head(old(cursor).rest()) == Err::<ParamHeadView, _>(
                    error.deep_view(),
                ) && final(cursor).position() == old(cursor).position() && final(cursor).rest()
                    == old(cursor).rest(),
            },
    {
        let ghost rest = cursor.rest();
        let publicity = match cursor.peek(0) {
            Some(token) => token.is_word("pub"),
            None => false,
        };
        let a: usize = if publicity {
            1
        } else {
            0
        };
        let mutability = match cursor.peek(a) {
            Some(token) => token.is_word("mut"),
            None => false,
        };
        let b: usize = if mutability {
            a + 1
        } else {
            a
        };
        let named = match cursor.peek(b + 1) {
            Some(colon) => colon.is_punct(':') && match cursor.peek(b + 2) {
                Some(start) => start.is_ident(),
                None => false,
            },
            None => false,
        };
        if !named {
            cursor.advance(b);
            return Ok((publicity, mutability, None));
        }
        let name = match cursor.peek(b) {
            Some(token) => match token.ident_name() {
                Some(name) => Some(name.clone()),
                None => None,
            },
            None => None,
        };
        match name {
            Some(name) => {
                cursor.advance(b + 2);
                Ok((publicity, mutability, Some(name)))
            },
            None => {
                let mut fork = cursor.fork();
                fork.advance(b);
                Err(ParseError::new(ErrorKind::MalformedName, fork.snapshot(), Construct::Param))
            },
        }
    }

    /// Reads the type expression, of the length that the type grammar gives
    /// or that `extent` gives in its place. Without a valid length the
    /// cursor stays and the error names the token that stands there.
    pub fn parse_type(cursor: &mut Cursor, extent: Extent) -> (result: Result<
        Vec<Token>,
        ParseError,
    >)
        ensures
            final(cursor).stream() == old(cursor).stream(),
            match result {
                Ok(ty) => param_type(old(cursor).rest(), Some(ty.len() as nat)) == Ok::<
                    nat,
                    ParseErrorView,
                >(ty.len() as nat) && ty.deep_view() == old(cursor).rest().take(ty.len() as int)
                    && final(cursor).position() == old(cursor).position() + ty.len() && final(cursor).rest() == old(cursor).rest().skip(ty.len() as int),
                Err(error) => param_type(old(cursor).rest(), None) == Err::<nat, _>(
                    error.deep_view(),
                ) && final(cursor).position() == old(cursor).position() && final(cursor).rest()
                    == old(cursor).rest(),
            },
            extent matches Extent::Given(len) ==> (result is Ok <==> valid_len(
                len_view(len),
                old(cursor).rest().len(),
            )) && (result is Ok ==> Some(result->Ok_0.len()) == len),
    {
        match read_extent(Grammar::Type, cursor, extent) {
            Some(ty) => Ok(ty),
            None => {
                let actual = match cursor.peek(0) {
                    Some(token) => Some(token.clone()),
                    None => None,
                };
                Err(
                    ParseError::new(
                        ErrorKind::ExpectedType { actual },
                        cursor.snapshot(),
                        Construct::Param,
                    ),
                )
            },
        }
    }

    /// Reads the tuple arguments: the group in parentheses one token after
    /// the cursor, in which case the token in front of it is dropped, or else
    /// the one at the cursor. Where neither is there, there are no arguments
    /// and the cursor stays.
    pub fn parse_tuple_args(cursor: &mut Cursor) -> (result: Result<
        Option<PunctSet<Vec<Token>>>,
        ParseError,
    >)
        ensures
            final(cursor).stream() == old(cursor).stream(),
            match result {
                Ok(args) => param_args(old(cursor).rest()) matches Ok((view, n)) && view
                    == args.deep_view() && final(cursor).position() == old(cursor).position() + n
                    && final(cursor).rest() == old(cursor).rest().skip(n as int),
                Err(error) => param_args(old(cursor).rest()) == Err::<
                    (Option<PunctSetView<Seq<TokenView>>>, nat),
                    _,
                >(error.deep_view()) && final(cursor).position() == old(cursor).position()
                    && final(cursor).rest() == old(cursor).rest(),
            },
    {
        let ghost rest = cursor.rest();
        let later = match cursor.peek(1) {
            Some(token) => token.is_group(Delimiter::Parenthesis),
            None => false,
        };
        let at: usize = if later {
            1
        } else {
            0
        };
        let inner = match cursor.peek(at) {
            Some(token) => if token.is_group(Delimiter::Parenthesis) {
                token.group_interior()
            } else {
                None
            },
            None => None,
        };
        match inner {
            None => {
                assert(rest.skip(0) =~= rest);
                Ok(None)
            },
            Some(tokens) => match PunctSet::<Vec<Token>>::parse(tokens, ',') {
                Ok(set) => {
                    cursor.advance(at + 1);
                    Ok(Some(set))
                },
                Err(error) => Err(error.within(Construct::Param)),
            },
        }
    }

    /// Reads the default value: the marker `=` and the expression after it,
    /// of the length that the expression grammar gives or that `extent`
    /// gives in its place. Without a marker there is no default and the
    /// cursor stays; after a marker an expression is due.
    pub fn parse_default(cursor: &mut Cursor, extent: Extent) -> (result: Result<
        Option<(Token, Vec<Token>)>,
        ParseError,
    >)
        ensures
            final(cursor).stream() == old(cursor).stream(),
            default_outcome(
                old(cursor).rest(),
                used_len(result_view(result)),
                result_view(result),
                final(cursor).position() - old(cursor).position(),
            ),
            extent matches Extent::Given(given) ==> param_default(
                old(cursor).rest(),
                len_view(given),
            ) == param_default(old(cursor).rest(), used_len(result_view(result))),
            final(cursor).rest() == old(cursor).rest().skip(
                final(cursor).position() - old(cursor).position(),
            ),
    {
        let ghost rest = cursor.rest();
        assert(rest.skip(0) =~= rest);
        let marker = match cursor.peek(0) {
            Some(token) => if token.is_punct('=') {
                Some(token.clone())
            } else {
                None
            },
            None => None,
        };
        match marker {
            None => Ok(None),
            Some(marker) => {
                let mut fork = cursor.fork();
                fork.advance(1);
                match read_extent(Grammar::Expr, &mut fork, extent) {
                    Some(value) => {
                        assert(rest.skip(1).skip(value.len() as int) =~= rest.skip(
                            value.len() + 1,
                        ));
                        cursor.commit(fork);
                        Ok(Some((marker, value)))
                    },
                    None => Err(
                        ParseError::new(
                            ErrorKind::MissingValue,
                            fork.snapshot(),
                            Construct::Param,
                        ),
                    ),
                }
            },
        }
    }

    /// Reads one parameter at the cursor, with the lengths of its type and
    /// of its default value as the grammars give them, or as `ty` and
    /// `default` give them in their place. The lengths that were used come
    /// back beside the result.
    #[verifier::rlimit(40)]
    fn parse_with(cursor: &mut Cursor, ty: Extent, default: Extent) -> (out: (
        Result<Param, ParseError>,
        Ghost<(Option<nat>, Option<nat>)>,
    ))
        ensures
            final(cursor).stream() == old(cursor).stream(),
            param_outcome(
                old(cursor).rest(),
                out.1@.0,
                out.1@.1,
                result_view(out.0),
                final(cursor).position() - old(cursor).position(),
            ),
            ty matches Extent::Given(given) ==> out.1@.0 == len_view(given),
            default matches Extent::Given(given) ==> out.1@.1 == len_view(given),
            final(cursor).rest() == old(cursor).rest().skip(
                final(cursor).position() - old(cursor).position(),
            ),
    {
        let ghost rest = cursor.rest();
        let ghost given_ty = match ty {
            Extent::Given(given) => len_view(given),
            Extent::Ask => None,
        };
        let ghost given_default = match default {
            Extent::Given(given) => len_view(given),
            Extent::Ask => None,
        };
        assert(rest.skip(0) =~= rest);
        let mut fork = cursor.fork();
        let (publicity, mutability, name) = match Param::parse_head(&mut fork) {
            Ok(head) => head,
            Err(error) => {
                proof {
                    lemma_parse_param_parts(rest, given_ty, given_default);
                }
                return (Err(error), Ghost((given_ty, given_default)));
            },
        };
        let ghost s1 = fork.rest();
        let parsed_ty = match Param::parse_type(&mut fork, ty) {
            Ok(parsed_ty) => parsed_ty,
            Err(error) => {
                proof {
                    assert(param_type(s1, given_ty) == param_type(s1, None));
                    lemma_parse_param_parts(rest, given_ty, given_default);
                }
                return (Err(error), Ghost((given_ty, given_default)));
            },
        };
        let ghost ty_len = Some(parsed_ty.len() as nat);
        let tuple_args = match Param::parse_tuple_args(&mut fork) {
            Ok(args) => args,
            Err(error) => {
                proof {
                    lemma_parse_param_parts(rest, ty_len, given_default);
                }
                return (Err(error), Ghost((ty_len, given_default)));
            },
        };
        let ghost s3 = fork.rest();
        let default_val = Param::parse_default(&mut fork, default);
        let ghost default_len = match default {
            Extent::Given(given) => len_view(given),
            Extent::Ask => used_len(result_view(default_val)),
        };
        proof {
            assert(param_default(s3, default_len) == param_default(
                s3,
                used_len(result_view(default_val)),
            ));
            lemma_parse_param_parts(rest, ty_len, default_len);
        }
        match default_val {
            Ok(default_val) => {
                cursor.commit(fork);
                (
                    Ok(Param { publicity, mutability, name, ty: parsed_ty, tuple_args, default_val }),
                    Ghost((ty_len, default_len)),
                )
            },
            Err(error) => (Err(error), Ghost((ty_len, default_len))),
        }
    }

    /// Reads one parameter at the cursor where the lengths of its type and
    /// of its default value are given: `ty_len` tokens after the head are
    /// the type, and `default_len` tokens after the marker `=` are the
    /// value. On an error the cursor stays where it was.
    pub fn parse_given(
        cursor: &mut Cursor,
        ty_len: Option<usize>,
        default_len: Option<usize>,
    ) -> (result: Result<Param, ParseError>)
        ensures
            final(cursor).stream() == old(cursor).stream(),
            param_outcome(
                old(cursor).rest(),
                len_view(ty_len),
                len_view(default_len),
                result_view(result),
                final(cursor).position() - old(cursor).position(),
            ),
            final(cursor).rest() == old(cursor).rest().skip(
                final(cursor).position() - old(cursor).position(),
            ),
    {
        Param::parse_with(cursor, Extent::Given(ty_len), Extent::Given(default_len)).0
    }

    /// Reads one parameter at the cursor. The two grammars say how long
    /// its type and its default value are; whatever they say, the parameter
    /// that comes back is a reading of what stands at the cursor with the
    /// lengths that it holds, and an error is one that some answer of the
    /// grammars leads to. An error of the head is the error that comes back.
    /// On an error the cursor stays where it was.
    pub fn parse_cursor(cursor: &mut Cursor) -> (result: Result<Param, ParseError>)
        ensures
            final(cursor).stream() == old(cursor).stream(),
            match result {
                Ok(param) => param_reads(
                    old(cursor).rest(),
                    param.deep_view(),
                    (final(cursor).position() - old(cursor).position()) as nat,
                ) && final(cursor).position() >= old(cursor).position(),
                Err(error) => (exists|ty_len: Option<nat>, default_len: Option<nat>| #[trigger]
                    parse_param(old(cursor).rest(), ty_len, default_len) == Err::<
                        (ParamView, nat),
                        _,
                    >(error.deep_view())) && final(cursor).position() == old(cursor).position(),
            },
            param_head(old(cursor).rest()) matches Err(error) ==> result_view(result) == Err::<
                ParamView,
                _,
            >(error),
            final(cursor).rest() == old(cursor).rest().skip(
                final(cursor).position() - old(cursor).position(),
            ),
    {
        let ghost rest = cursor.rest();
        let (result, Ghost(lens)) = Param::parse_with(cursor, Extent::Ask, Extent::Ask);
        proof {
            lemma_parse_param_parts(rest, lens.0, lens.1);
            if result is Ok {
                lemma_param_reads(rest, lens.0, lens.1);
            } else {
                assert(parse_param(rest, lens.0, lens.1) == Err::<(ParamView, nat), _>(
                    result->Err_0.deep_view(),
                ));
            }
        }
        result
    }

    /// Reads the parameter that `tokens` starts with, as
    /// [`Param::parse_cursor`] reads it. Tokens after it are not looked at.
    pub fn parse(tokens: &Vec<Token>) -> (result: Result<Param, ParseError>)
        ensures
            match result {
                Ok(param) => exists|taken: nat| #[trigger]
                    param_reads(tokens.deep_view(), param.deep_view(), taken),
                Err(error) => exists|ty_len: Option<nat>, default_len: Option<nat>| #[trigger]
                    parse_param(tokens.deep_view(), ty_len, default_len) == Err::<
                        (ParamView, nat),
                        _,
                    >(error.deep_view()),
            },
            param_head(tokens.deep_view()) matches Err(error) ==> result_view(result) == Err::<
                ParamView,
                _,
            >(error),
    {
        let mut cursor = Cursor::new(tokens);
        Param::parse_cursor(&mut cursor)
    }

    /// Writes out the default value: its marker and its expression.
    fn write_default(&self) -> (tokens: Vec<Token>)
        ensures
            tokens.deep_view() == default_part(self.deep_view()),
    {
        let mut tokens: Vec<Token> = Vec::new();
        match &self.default_val {
            Some((marker, value)) => {
                tokens.push(marker.clone());
                let mut value = clone_tokens(value);
                tokens.append(&mut value);
            },
            None => {},
        }
        assert(tokens.deep_view() =~= default_part(self.deep_view()));
        tokens
    }

    /// Writes out the tuple arguments: one group in parentheses.
    fn write_args(&self) -> (tokens: Vec<Token>)
        ensures
            tokens.deep_view() == args_part(self.deep_view()),
    {
        let mut tokens: Vec<Token> = Vec::new();
        match &self.tuple_args {
            Some(set) => {
                let inner = set.to_tokens();
                tokens.push(Token::group(Delimiter::Parenthesis, inner));
            },
            None => {},
        }
        assert(tokens.deep_view() =~= args_part(self.deep_view()));
        tokens
    }

    /// Writes out the parameter from its type on.
    fn write_type_onwards(&self) -> (tokens: Vec<Token>)
        ensures
            tokens.deep_view() == type_onwards(self.deep_view()),
    {
        let mut tokens = clone_tokens(&self.ty);
        let mut args = self.write_args();
        let mut default_val = self.write_default();
        tokens.append(&mut args);
        tokens.append(&mut default_val);
        assert(tokens.deep_view() =~= type_onwards(self.deep_view()));
        tokens
    }

    /// Writes out the parameter from its name on.
    fn write_name_onwards(&self) -> (tokens: Vec<Token>)
        ensures
            tokens.deep_view() == name_onwards(self.deep_view()),
    {
        let mut tokens: Vec<Token> = Vec::new();
        match &self.name {
            Some(name) => {
                tokens.push(Token::Ident(name.clone()));
                tokens.push(Token::Punct(':', Spacing::Alone));
            },
            None => {},
        }
        assert(tokens.deep_view() =~= name_part(self.deep_view().name));
        let mut rest = self.write_type_onwards();
        tokens.append(&mut rest);
        assert(tokens.deep_view() =~= name_onwards(self.deep_view()));
        tokens
    }

    /// Writes the parameter out.
    pub fn to_tokens(&self) -> (tokens: Vec<Token>)
        ensures
            tokens.deep_view() == param_tokens(self.deep_view()),
    {
        let mut tokens: Vec<Token> = Vec::new();
        if self.publicity {
            tokens.push(Token::Ident(String::from_str("pub")));
        }
        if self.mutability {
            tokens.push(Token::Ident(String::from_str("mut")));
        }
        let ghost flags = tokens.deep_view();
        let mut rest = self.write_name_onwards();
        tokens.append(&mut rest);
        assert(tokens.deep_view() =~= flags + name_onwards(self.deep_view()));
        assert(tokens.deep_view() =~= param_tokens(self.deep_view()));
        tokens
    }

    /// The parameter as text: `[pub ][mut ][name: ]type[(args)][ = default]`.
    pub fn display(&self) -> (text: String)
        ensures
            text@ == param_text(self.deep_view()),
    {
        let mut text = String::new();
        if self.publicity {
            text.append("pub ");
        }
        if self.mutability {
            text.append("mut ");
        }
        match &self.name {
            Some(name) => {
                text.append(name.as_str());
                text.append(": ");
            },
            None => {},
        }
        write_stream(&self.ty, &mut text);
        match &self.tuple_args {
            Some(set) => {
                text.append("(");
                let inner = set.to_tokens();
                write_stream(&inner, &mut text);
                text.append(")");
            },
            None => {},
        }
        match &self.default_val {
            Some((_, value)) => {
                text.append(" = ");
                write_stream(value, &mut text);
            },
            None => {},
        }
        assert(text@ =~= param_text(self.deep_view()));
        text
    }

    /// The parameter as a definition: its name as the key, its type as the
    /// value.
    pub fn as_define(&self) -> (define: Define)
        requires
            self.name is Some,
        ensures
            define.deep_view().ident == self.deep_view().name->0,
            define.deep_view().value == self.deep_view().ty,
    {
        match &self.name {
            Some(name) => Define { ident: name.clone(), value: clone_tokens(&self.ty) },
            None => Define { ident: String::new(), value: clone_tokens(&self.ty) },
        }
    }
}

/// A stretch of a parameter list read as `param`: the stretch is read as
/// `param` from its first token to its last.
pub open spec fn param_fits(stream: Seq<TokenView>, param: ParamView) -> bool {
    param_reads(stream, param, stream.len())
}

/// The rule by which the parameters of a list fit its stretches.
pub open spec fn param_fitting() -> spec_fn(Seq<TokenView>, ParamView) -> bool {
    |c: Seq<TokenView>, param: ParamView| param_fits(c, param)
}

/// The reading of a stretch of a parameter list where the grammars give
/// the lengths `ty_len` and `default_len`: the parameter that the stretch
/// is from its first token to its last, or none.
pub open spec fn param_reading(
    stream: Seq<TokenView>,
    ty_len: Option<nat>,
    default_len: Option<nat>,
) -> Option<ParamView> {
    match parse_param(stream, ty_len, default_len) {
        Ok((param, n)) => if n == stream.len() {
            Some(param)
        } else {
            None
        },
        Err(_) => None,
    }
}

/// The lengths that the two grammars give for a parameter: of its type and
/// of its default value.
pub open spec fn lengths_view(lengths: Seq<(Option<usize>, Option<usize>)>) -> Seq<
    (Option<nat>, Option<nat>),
> {
    Seq::new(lengths.len(), |i: int| (len_view(lengths[i].0), len_view(lengths[i].1)))
}

/// The readings of the stretches `parts` of a parameter list where the
/// grammars give `lengths`, one pair for each stretch in order; no length
/// for a stretch without a pair.
pub open spec fn given_readings(
    parts: Seq<Seq<TokenView>>,
    lengths: Seq<(Option<nat>, Option<nat>)>,
) -> Seq<Option<ParamView>> {
    Seq::new(
        parts.len(),
        |i: int|
            if i < lengths.len() {
                param_reading(parts[i], lengths[i].0, lengths[i].1)
            } else {
                param_reading(parts[i], None, None)
            },
    )
}

/// The parameter list in `stream` where the grammars give `lengths`.
/// A stream that starts with a group in parentheses is read inside that
/// group.
pub open spec fn params_given(
    stream: Seq<TokenView>,
    lengths: Seq<(Option<nat>, Option<nat>)>,
) -> Result<PunctSetView<ParamView>, ParseErrorView> {
    let inner = unwrap_stream(stream, Delimiter::Parenthesis);
    collected(inner, ',', given_readings(stretches(inner, ','), lengths), Construct::Param)
}

/// The written forms of the parameters of a list, in order.
pub open spec fn param_parts(vals: Seq<ParamView>) -> Seq<Seq<TokenView>> {
    Seq::new(vals.len(), |i: int| param_tokens(vals[i]))
}

impl PunctSet<Param> {
    /// Reads a list of parameters parted by commas. A stream that starts
    /// with a group in parentheses is read inside that group. Each stretch
    /// between commas is read as a parameter from its first token to its
    /// last, and [`collect`] makes the list of the outcomes: an error for a
    /// stream without stretches, an error for the first stretch that was
    /// not read, and else the list of all parameters.
    pub fn parse(tokens: &Vec<Token>) -> (result: Result<Self, ParseError>)
        ensures
            list_outcome(
                tokens.deep_view(),
                ',',
                Construct::Param,
                param_fitting(),
                result_view(result),
            ),
            result matches Ok(set) ==> set_fits(
                tokens.deep_view(),
                ',',
                param_fitting(),
                set.deep_view(),
            ),
    {
        let inner = unwrap_input(tokens, Delimiter::Parenthesis);
        let parts = split(inner, ',');
        let ghost stretches = parts.deep_view();
        let mut read: Vec<Option<Param>> = Vec::new();
        let mut i: usize = 0;
        while i < parts.len()
            invariant
                i <= parts.len(),
                read.len() == i,
                stretches == parts.deep_view(),
                forall|j: int|
                    0 <= j < i ==> ((#[trigger] read@[j]) matches Some(param) ==> param_fits(
                        stretches[j],
                        param.deep_view(),
                    )),
            decreases parts.len() - i,
        {
            let mut reader = Cursor::new(&parts[i]);
            let one = match Param::parse_cursor(&mut reader) {
                Ok(param) => if reader.is_empty() {
                    Some(param)
                } else {
                    None
                },
                Err(_) => None,
            };
            read.push(one);
            i += 1;
        }
        proof {
            assert forall|j: int| 0 <= j < stretches.len() implies ((
            #[trigger] read.deep_view()[j]) matches Some(value) ==> param_fitting()(
                stretches[j],
                value,
            )) by {
                assert(read.deep_view()[j] == read@[j].deep_view());
            }
            lemma_collected(
                tokens.deep_view(),
                ',',
                read.deep_view(),
                Construct::Param,
                param_fitting(),
            );
        }
        collect(inner, ',', read, Construct::Param)
    }

    /// Reads a list of parameters parted by commas where the lengths that
    /// the grammars give are given: for each stretch in order, the length
    /// of its type and the length of its default value. A stretch without
    /// a pair has no lengths and is not read.
    pub fn parse_given(tokens: &Vec<Token>, lengths: &Vec<(Option<usize>, Option<usize>)>) -> (result:
        Result<Self, ParseError>)
        ensures
            result_view(result) == params_given(tokens.deep_view(), lengths_view(lengths@)),
    {
        let inner = unwrap_input(tokens, Delimiter::Parenthesis);
        let parts = split(inner, ',');
        let ghost stretches = parts.deep_view();
        let ghost given = lengths_view(lengths@);
        let mut read: Vec<Option<Param>> = Vec::new();
        let mut i: usize = 0;
        while i < parts.len()
            invariant
                i <= parts.len(),
                read.len() == i,
                stretches == parts.deep_view(),
                given == lengths_view(lengths@),
                forall|j: int|
                    0 <= j < i ==> (#[trigger] read@[j]).deep_view() == given_readings(
                        stretches,
                        given,
                    )[j],
            decreases parts.len() - i,
        {
            let (ty_len, default_len) = if i < lengths.len() {
                lengths[i]
            } else {
                (None, None)
            };
            let mut reader = Cursor::new(&parts[i]);
            let one = match Param::parse_given(&mut reader, ty_len, default_len) {
                Ok(param) => if reader.is_empty() {
                    Some(param)
                } else {
                    None
                },
                Err(_) => None,
            };
            read.push(one);
            i += 1;
        }
        assert(read.deep_view() =~= given_readings(stretches, given));
        collect(inner, ',', read, Construct::Param)
    }

    /// Writes the list out: its parameters in order, with the separator
    /// between each two and none after the last.
    pub fn to_tokens(&self) -> (tokens: Vec<Token>)
        ensures
            tokens.deep_view() == join(param_parts(self.deep_view().vals), self.deep_view().delim),
    {
        let ghost wanted = param_parts(self.deep_view().vals);
        let mut parts: Vec<Vec<Token>> = Vec::new();
        let mut i: usize = 0;
        while i < self.vals.len()
            invariant
                i <= self.vals.len(),
                parts.len() == i,
                wanted == param_parts(self.deep_view().vals),
                wanted.len() == self.vals.len(),
                forall|j: int| 0 <= j < i ==> (#[trigger] parts@[j]).deep_view() == wanted[j],
            decreases self.vals.len() - i,
        {
            parts.push(self.vals[i].to_tokens());
            i += 1;
        }
        assert(parts.deep_view() =~= wanted);
        write_joined(&parts, &self.delim)
    }

    /// The list as text.
    pub fn display(&self) -> (text: String)
        ensures
            text@ == stream_text(
                join(param_parts(self.deep_view().vals), self.deep_view().delim),
            ),
    {
        let tokens = self.to_tokens();
        stream_to_string(&tokens)
    }
}

/// What a `let` statement for a parameter binds: its name, a colon, its
/// type, and `=` with the value of its default.
pub open spec fn let_binding(param: ParamView) -> Seq<TokenView> {
    (match param.name {
        Some(name) => seq![TokenView::Ident(name)],
        None => Seq::empty(),
    }) + (seq![TokenView::Punct(':', Spacing::Alone)] + (param.ty + (match param.default_val {
        Some((_, value)) => seq![TokenView::Punct('=', Spacing::Alone)] + value,
        None => Seq::empty(),
    })))
}

/// The `let` statement for a parameter: `let`, `mut` where it is mutable,
/// what it binds, and `;` where `end` asks for it.
pub open spec fn let_decl(param: ParamView, end: bool) -> Seq<TokenView> {
    seq![TokenView::Ident("let"@)] + ((if param.mutability {
        seq![TokenView::Ident("mut"@)]
    } else {
        Seq::empty()
    }) + (let_binding(param) + (if end {
        seq![TokenView::Punct(';', Spacing::Alone)]
    } else {
        Seq::empty()
    })))
}

/// The variable that a parameter takes its value from: the first
/// identifier of what its `let` statement binds.
pub open spec fn value_source(param: ParamView) -> Option<TokenView> {
    first_of(let_binding(param), TokenKind::Ident)
}

/// The tokens `.clone()`.
pub open spec fn clone_call() -> Seq<TokenView> {
    seq![
        TokenView::Punct('.', Spacing::Alone),
        TokenView::Ident("clone"@),
        TokenView::Group(Delimiter::Parenthesis, Seq::empty()),
    ]
}

/// A comma, unless this is the last item of a list.
pub open spec fn comma_unless(last: bool) -> Seq<TokenView> {
    if last {
        Seq::empty()
    } else {
        seq![TokenView::Punct(',', Spacing::Alone)]
    }
}

/// The `let` statement for a parameter with the clone of a variable as
/// its value: `let ... = source.clone()`, or `let ... = self.source.clone()`
/// where `from_self` asks for it, and a comma unless it is the last.
pub open spec fn let_from(
    param: ParamView,
    source: TokenView,
    from_self: bool,
    last: bool,
) -> Seq<TokenView> {
    let_decl(param, false) + (seq![TokenView::Punct('=', Spacing::Alone)] + ((if from_self {
        seq![TokenView::Ident("self"@), TokenView::Punct('.', Spacing::Alone)]
    } else {
        Seq::empty()
    }) + (seq![source] + (clone_call() + comma_unless(last)))))
}

/// The field of a value for a parameter with the name `name`:
/// `name: name.clone()`, and a comma unless it is the last.
pub open spec fn field_from(name: Seq<char>, last: bool) -> Seq<TokenView> {
    seq![
        TokenView::Ident(name),
        TokenView::Punct(':', Spacing::Alone),
        TokenView::Ident(name),
    ] + (clone_call() + comma_unless(last))
}

/// Appends the tokens `.clone()` and, unless `last`, a comma.
fn push_clone_call(tokens: &mut Vec<Token>, last: bool)
    ensures
        final(tokens).deep_view() == old(tokens).deep_view() + (clone_call() + comma_unless(last)),
{
    tokens.push(Token::Punct('.', Spacing::Alone));
    tokens.push(Token::Ident(String::from_str("clone")));
    let nothing: Vec<Token> = Vec::new();
    assert(nothing.deep_view() =~= Seq::<TokenView>::empty());
    tokens.push(Token::group(Delimiter::Parenthesis, nothing));
    if !last {
        tokens.push(Token::Punct(',', Spacing::Alone));
    }
    assert(tokens.deep_view() =~= old(tokens).deep_view() + (clone_call() + comma_unless(last)));
}

impl Param {
    /// Writes what a `let` statement for the parameter binds.
    fn write_let_binding(&self) -> (tokens: Vec<Token>)
        ensures
            tokens.deep_view() == let_binding(self.deep_view()),
    {
        let mut tail = clone_tokens(&self.ty);
        match &self.default_val {
            Some((_, value)) => {
                let mut assigned: Vec<Token> = Vec::new();
                assigned.push(Token::Punct('=', Spacing::Alone));
                let mut value = clone_tokens(value);
                assigned.append(&mut value);
                tail.append(&mut assigned);
            },
            None => {},
        }
        let mut tokens: Vec<Token> = Vec::new();
        match &self.name {
            Some(name) => {
                tokens.push(Token::Ident(name.clone()));
            },
            None => {},
        }
        tokens.push(Token::Punct(':', Spacing::Alone));
        tokens.append(&mut tail);
        assert(tokens.deep_view() =~= let_binding(self.deep_view()));
        tokens
    }

    /// Writes the `let` statement for the parameter, with or without the
    /// `;` at its end.
    fn write_let_decl(&self, end: bool) -> (tokens: Vec<Token>)
        ensures
            tokens.deep_view() == let_decl(self.deep_view(), end),
    {
        let mut binding = self.write_let_binding();
        if end {
            binding.push(Token::Punct(';', Spacing::Alone));
        }
        let mut tokens: Vec<Token> = Vec::new();
        tokens.push(Token::Ident(String::from_str("let")));
        if self.mutability {
            tokens.push(Token::Ident(String::from_str("mut")));
        }
        tokens.append(&mut binding);
        assert(tokens.deep_view() =~= let_decl(self.deep_view(), end));
        tokens
    }

    /// The `let` statement that declares the parameter as a variable:
    /// `let [mut] [name]: type [= default];`.
    pub fn as_regular_let_decl(&self) -> (tokens: Vec<Token>)
        ensures
            tokens.deep_view() == let_decl(self.deep_view(), true),
    {
        self.write_let_decl(true)
    }

    /// The same statement without the `;` at its end.
    pub fn as_regular_let_decl_without_end_punct(&self) -> (tokens: Vec<Token>)
        ensures
            tokens.deep_view() == let_decl(self.deep_view(), false),
    {
        self.write_let_decl(false)
    }

    /// The variable that the parameter takes its value from, if what its
    /// `let` statement binds holds an identifier.
    pub fn value_source(&self) -> (source: Option<Token>)
        ensures
            source.deep_view() == value_source(self.deep_view()),
    {
        let binding = self.write_let_binding();
        let mut cursor = Cursor::new(&binding);
        match ParseFirst::parse(&mut cursor, TokenKind::Ident) {
            Ok(found) => Some(found.0),
            Err(_) => None,
        }
    }

    /// The `let` statement for the parameter with the clone of `source` as
    /// its value.
    fn write_let_from(&self, source: &Token, from_self: bool, last: bool) -> (tokens: Vec<Token>)
        ensures
            tokens.deep_view() == let_from(self.deep_view(), source.deep_view(), from_self, last),
    {
        let mut value: Vec<Token> = Vec::new();
        if from_self {
            value.push(Token::Ident(String::from_str("self")));
            value.push(Token::Punct('.', Spacing::Alone));
        }
        let ghost prefix = value.deep_view();
        value.push(source.clone());
        push_clone_call(&mut value, last);
        let ghost assigned = value.deep_view();
        assert(assigned =~= prefix + (seq![source.deep_view()] + (clone_call() + comma_unless(
            last,
        ))));
        let mut tokens = self.write_let_decl(false);
        tokens.push(Token::Punct('=', Spacing::Alone));
        tokens.append(&mut value);
        assert(tokens.deep_view() =~= let_decl(self.deep_view(), false) + (seq![
            TokenView::Punct('=', Spacing::Alone),
        ] + assigned));
        assert(tokens.deep_view() =~= let_from(
            self.deep_view(),
            source.deep_view(),
            from_self,
            last,
        ));
        tokens
    }
}

/// The `let` statements of a list of parameters, one after the other.
pub open spec fn let_decls(vals: Seq<ParamView>) -> Seq<Seq<TokenView>> {
    Seq::new(vals.len(), |i: int| let_decl(vals[i], true))
}

/// Every parameter of the list has a variable to take its value from.
pub open spec fn all_have_sources(vals: Seq<ParamView>) -> bool {
    forall|i: int| 0 <= i < vals.len() ==> value_source(#[trigger] vals[i]) is Some
}

/// Every parameter of the list has a name.
pub open spec fn all_have_names(vals: Seq<ParamView>) -> bool {
    forall|i: int| 0 <= i < vals.len() ==> (#[trigger] vals[i]).name is Some
}

/// The `let` statements of a list of parameters that take their values
/// from variables, one after the other, with commas between them.
pub open spec fn lets_from(vals: Seq<ParamView>, from_self: bool) -> Seq<Seq<TokenView>> {
    Seq::new(
        vals.len(),
        |i: int| let_from(vals[i], value_source(vals[i])->0, from_self, i == vals.len() - 1),
    )
}

/// The fields of a value for a list of parameters, with commas between
/// them.
pub open spec fn fields_from(vals: Seq<ParamView>) -> Seq<Seq<TokenView>> {
    Seq::new(vals.len(), |i: int| field_from(vals[i].name->0, i == vals.len() - 1))
}

impl PunctSet<Param> {
    /// The `let` statements that declare the parameters as variables, one
    /// after the other.
    pub fn as_regular_let_decls(&self) -> (tokens: Vec<Token>)
        ensures
            tokens.deep_view() == join(let_decls(self.deep_view().vals), None),
    {
        let ghost parts = let_decls(self.deep_view().vals);
        let mut tokens: Vec<Token> = Vec::new();
        let mut i: usize = 0;
        assert(tokens.deep_view() =~= join(parts.take(0), None));
        while i < self.vals.len()
            invariant
                i <= self.vals.len(),
                parts == let_decls(self.deep_view().vals),
                tokens.deep_view() == join(parts.take(i as int), None),
            decreases self.vals.len() - i,
        {
            let ghost before = tokens.deep_view();
            let mut part = self.vals[i].as_regular_let_decl();
            tokens.append(&mut part);
            proof {
                let next = parts.take(i + 1);
                assert(next.drop_last() =~= parts.take(i as int));
                assert(next.last() == parts[i as int]);
                assert(tokens.deep_view() =~= before + separator(None) + parts[i as int]);
            }
            i += 1;
        }
        assert(parts.take(self.vals.len() as int) =~= parts);
        tokens
    }

    /// The `let` statements that give each parameter the clone of the
    /// variable it is named after, or of the field of `self` of that name
    /// where `from_self` is set, with commas between them.
    fn write_lets_from(&self, from_self: bool) -> (tokens: Vec<Token>)
        requires
            all_have_sources(self.deep_view().vals),
        ensures
            tokens.deep_view() == join(lets_from(self.deep_view().vals, from_self), None),
    {
        let ghost parts = lets_from(self.deep_view().vals, from_self);
        let mut tokens: Vec<Token> = Vec::new();
        let mut i: usize = 0;
        assert(tokens.deep_view() =~= join(parts.take(0), None));
        while i < self.vals.len()
            invariant
                i <= self.vals.len(),
                all_have_sources(self.deep_view().vals),
                parts == lets_from(self.deep_view().vals, from_self),
                tokens.deep_view() == join(parts.take(i as int), None),
            decreases self.vals.len() - i,
        {
            let ghost before = tokens.deep_view();
            let param = &self.vals[i];
            assert(param.deep_view() == self.deep_view().vals[i as int]);
            let mut part = match param.value_source() {
                Some(source) => param.write_let_from(&source, from_self, i + 1 == self.vals.len()),
                None => Vec::new(),
            };
            tokens.append(&mut part);
            proof {
                let next = parts.take(i + 1);
                assert(next.drop_last() =~= parts.take(i as int));
                assert(next.last() == parts[i as int]);
                assert(tokens.deep_view() =~= before + separator(None) + parts[i as int]);
            }
            i += 1;
        }
        assert(parts.take(self.vals.len() as int) =~= parts);
        tokens
    }

    /// The `let` statements that give each parameter the clone of the
    /// variable of the same name: `let a: T = a.clone(), let b: U = b.clone()`.
    pub fn as_regular_let_decls_with_value_from_samed_name_var(&self) -> (tokens: Vec<Token>)
        requires
            all_have_sources(self.deep_view().vals),
        ensures
            tokens.deep_view() == join(lets_from(self.deep_view().vals, false), None),
    {
        self.write_lets_from(false)
    }

    /// The `let` statements that give each parameter the clone of the field
    /// of `self` of the same name: `let a: T = self.a.clone(), ...`.
    pub fn as_regular_let_decls_with_value_from_samed_name_self_var(&self) -> (tokens: Vec<Token>)
        requires
            all_have_sources(self.deep_view().vals),
        ensures
            tokens.deep_view() == join(lets_from(self.deep_view().vals, true), None),
    {
        self.write_lets_from(true)
    }

    /// The fields that give each parameter the clone of the variable of
    /// the same name: `a: a.clone(), b: b.clone()`.
    pub fn as_value_decls_with_value_from_samed_name_var(&self) -> (tokens: Vec<Token>)
        requires
            all_have_names(self.deep_view().vals),
        ensures
            tokens.deep_view() == join(fields_from(self.deep_view().vals), None),
    {
        let ghost parts = fields_from(self.deep_view().vals);
        let mut tokens: Vec<Token> = Vec::new();
        let mut i: usize = 0;
        assert(tokens.deep_view() =~= join(parts.take(0), None));
        while i < self.vals.len()
            invariant
                i <= self.vals.len(),
                all_have_names(self.deep_view().vals),
                parts == fields_from(self.deep_view().vals),
                tokens.deep_view() == join(parts.take(i as int), None),
            decreases self.vals.len() - i,
        {
            let ghost before = tokens.deep_view();
            let param = &self.vals[i];
            assert(param.deep_view() == self.deep_view().vals[i as int]);
            let define = param.as_define();
            let mut part: Vec<Token> = Vec::new();
            part.push(Token::Ident(define.ident.clone()));
            part.push(Token::Punct(':', Spacing::Alone));
            part.push(Token::Ident(define.ident.clone()));
            push_clone_call(&mut part, i + 1 == self.vals.len());
            assert(part.deep_view() =~= parts[i as int]);
            tokens.append(&mut part);
            proof {
                let next = parts.take(i + 1);
                assert(next.drop_last() =~= parts.take(i as int));
                assert(next.last() == parts[i as int]);
                assert(tokens.deep_view() =~= before + separator(None) + parts[i as int]);
            }
            i += 1;
        }
        assert(parts.take(self.vals.len() as int) =~= parts);
        tokens
    }
}

} // verus!
