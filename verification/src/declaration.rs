//! Declarations: `name: Type(params): TrailA + TrailB { body }`, each part
//! but the type optional.

use crate::cursor::Cursor;
use crate::error::{failure, result_view, Construct, ErrorKind, ErrorKindView, ParseError, ParseErrorView};
use crate::param::{
    args_offset, lengths_view, name_part, param_fitting, param_parts, params_given, ParamView,
    Params,
};
use crate::parse_utils::{comes_next, first_fit, lemma_first_where, parse_until, unwrap_input, unwrap_stream};
use crate::punct_set::{
    collect, collected, join, lemma_collected, lemma_stretches, list_outcome, lone_delim, observed_delim, separator, set_fits, split, stretches, write_joined, PunctSet, PunctSetView,
};
use crate::text::{stream_to_string, write_stream};
use crate::token::{
    clone_tokens, lemma_weight_interior, lemma_weight_split, stream_text, stream_weight,
    Delimiter, Spacing, Token, TokenKind, TokenView,
};
use vstd::prelude::*;

verus! {

/// The mathematical value of a [`Declaration`](crate::declaration::Declaration).
pub struct DeclarationView {
    pub name: Option<Seq<char>>,
    pub ty: Seq<char>,
    pub params: Option<PunctSetView<ParamView>>,
    pub trails: Option<PunctSetView<DeclarationView>>,
    pub body: Option<Seq<TokenView>>,
}

/// The name and type at the start of a declaration, and how many tokens
/// they take.
pub struct DeclarationHeadView {
    pub name: Option<Seq<char>>,
    pub ty: Seq<char>,
    pub len: nat,
}

/// The head of the declaration at the start of `stream`: a name where an
/// identifier and a colon come first, then the identifier that is the type.
/// Without that identifier there is no declaration.
pub open spec fn declaration_head(stream: Seq<TokenView>) -> Result<
    DeclarationHeadView,
    ParseErrorView,
> {
    let named = stream.len() >= 2 && stream[0].is_ident() && stream[1].is_punct(':');
    let p0: int = if named {
        2
    } else {
        0
    };
    if stream.len() > p0 && stream[p0].is_ident() {
        Ok(
            DeclarationHeadView {
                name: if named {
                    Some(stream[0].spelling())
                } else {
                    None
                },
                ty: stream[p0].spelling(),
                len: (p0 + 1) as nat,
            },
        )
    } else {
        Err(failure(ErrorKindView::MissingType, stream.skip(p0), Construct::Declaration))
    }
}

/// How far it is from the start of `stream` to its first group in braces,
/// or to its end.
pub open spec fn body_gap(stream: Seq<TokenView>) -> nat {
    first_fit(stream, TokenKind::Group(Delimiter::Brace))
}

/// How many tokens the parameters at the start of `stream` take: the
/// group found by [`args_offset`] and the token in front of it, if any.
pub open spec fn params_span(stream: Seq<TokenView>) -> nat {
    match args_offset(stream) {
        Some(at) => at + 1,
        None => 0,
    }
}

/// `params` is a reading of the parameters at the start of `stream`: the
/// list inside the group found by [`args_offset`], or none where there is
/// no such group.
pub open spec fn params_read(
    stream: Seq<TokenView>,
    params: Option<PunctSetView<ParamView>>,
) -> bool {
    match args_offset(stream) {
        Some(at) => params matches Some(set) && set_fits(
            stream[at as int].interior(),
            ',',
            param_fitting(),
            set,
        ),
        None => params is None,
    }
}

/// Whether trails start at the start of `stream`: a colon stands there.
pub open spec fn has_trails(stream: Seq<TokenView>) -> bool {
    stream.len() > 0 && stream[0].is_punct(':')
}

/// The tokens that hold the trails: those after the colon up to the next
/// group in braces.
pub open spec fn trails_segment(stream: Seq<TokenView>) -> Seq<TokenView> {
    let rest = stream.skip(1);
    rest.take(body_gap(rest) as int)
}

/// How many tokens are passed over for the trails: all up to the next
/// group in braces, with or without trails among them.
pub open spec fn trails_span(stream: Seq<TokenView>) -> nat {
    if has_trails(stream) {
        body_gap(stream.skip(1)) + 1
    } else {
        body_gap(stream)
    }
}

/// The body at the start of `stream`, and how many tokens it takes: the
/// inside of the group in braces that stands there, if one does.
pub open spec fn declaration_body(stream: Seq<TokenView>) -> (Option<Seq<TokenView>>, nat) {
    if stream.len() > 0 && stream[0].is_group(Delimiter::Brace) {
        (Some(stream[0].interior()), 1)
    } else {
        (None, 0)
    }
}

/// How many tokens the declaration at the start of `stream` takes, read
/// as it stands: head, parameters, all up to the body, and the body.
pub open spec fn flat_span(stream: Seq<TokenView>) -> nat {
    match declaration_head(stream) {
        Ok(head) => {
            let s1 = stream.skip(head.len as int);
            let a = params_span(s1);
            let s2 = s1.skip(a as int);
            let t = trails_span(s2);
            head.len + a + t + declaration_body(s2.skip(t as int)).1
        },
        Err(_) => 0,
    }
}

/// `declaration` is a reading of the start of `stream` as it stands: the
/// head, the body and the places of the parts are those that `stream`
/// fixes; the parameters and the trails are readings of their parts.
pub open spec fn reads_flat(stream: Seq<TokenView>, declaration: DeclarationView) -> bool
    decreases declaration, 0nat,
{
    declaration_head(stream) matches Ok(head) && {
        let s1 = stream.skip(head.len as int);
        let s2 = s1.skip(params_span(s1) as int);
        &&& declaration.name == head.name
        &&& declaration.ty == head.ty
        &&& params_read(s1, declaration.params)
        &&& if has_trails(s2) {
            declaration.trails matches Some(set) && trails_fit(trails_segment(s2), set)
        } else {
            declaration.trails is None
        }
        &&& declaration.body == declaration_body(s2.skip(trails_span(s2) as int)).0
    }
}

/// A list of trails fits `stream` when it holds one declaration for each
/// stretch between the marks `+`, in order, each fits its stretch, and the
/// separator is the one seen. A stream that starts with a group in
/// parentheses is read inside that group.
pub open spec fn trails_fit(stream: Seq<TokenView>, set: PunctSetView<DeclarationView>) -> bool
    decreases set, 2nat,
{
    let inner = unwrap_stream(stream, Delimiter::Parenthesis);
    let parts = stretches(inner, '+');
    &&& parts.len() > 0
    &&& set.vals.len() == parts.len()
    &&& set.delim == observed_delim(inner, '+')
    &&& forall|i: int| 0 <= i < parts.len() ==> trail_fits(#[trigger] parts[i], set.vals[i])
}

/// A stretch of a list of trails read as `declaration`: the stretch, or
/// the inside of the parentheses that wrap all of it, is read as
/// `declaration` from the first token to the last.
pub open spec fn trail_fits(stream: Seq<TokenView>, declaration: DeclarationView) -> bool
    decreases declaration, 1nat,
{
    if stream.len() > 0 && stream[0].is_group(Delimiter::Parenthesis) {
        stream.len() == 1 && reads_flat(stream[0].interior(), declaration) && flat_span(
            stream[0].interior(),
        ) == stream[0].interior().len()
    } else {
        reads_flat(stream, declaration) && flat_span(stream) == stream.len()
    }
}

/// `declaration` is a reading of the start of `stream`. A stream that
/// starts with a group in parentheses is read inside that group.
pub open spec fn reads_declaration(stream: Seq<TokenView>, declaration: DeclarationView) -> bool {
    reads_flat(unwrap_stream(stream, Delimiter::Parenthesis), declaration)
}

/// How many tokens of `stream` the declaration at its start takes: the
/// one group in parentheses that wraps it, or what it takes as it stands.
pub open spec fn declaration_span(stream: Seq<TokenView>) -> nat {
    if stream.len() > 0 && stream[0].is_group(Delimiter::Parenthesis) {
        1
    } else {
        flat_span(stream)
    }
}

/// The rule by which the declarations of a list of trails fit its
/// stretches.
pub open spec fn trail_fitting() -> spec_fn(Seq<TokenView>, DeclarationView) -> bool {
    |c: Seq<TokenView>, declaration: DeclarationView| trail_fits(c, declaration)
}

/// What reading a list gave, as a declaration holds or reports it: the
/// list, or its error seen from the declaration; nothing where no outcome
/// is given.
pub open spec fn list_part<V>(
    outcome: Option<Result<PunctSetView<V>, ParseErrorView>>,
) -> Result<Option<PunctSetView<V>>, ParseErrorView> {
    match outcome {
        Some(Ok(set)) => Ok(Some(set)),
        Some(Err(error)) => Err(error.within(Construct::Declaration)),
        None => Ok(None),
    }
}

/// The declaration at the start of `stream`, read as it stands, and how
/// many tokens it takes, made of what `stream` fixes and of the outcomes of
/// reading its two lists: `params` for the list in the parameter group and
/// `trails` for the list after the colon. An outcome counts only where
/// `stream` holds its list. The error of the head comes first, then that of
/// the parameters, then that of the trails.
pub open spec fn assembled(
    stream: Seq<TokenView>,
    params: Option<Result<PunctSetView<ParamView>, ParseErrorView>>,
    trails: Option<Result<PunctSetView<DeclarationView>, ParseErrorView>>,
) -> Result<(DeclarationView, nat), ParseErrorView> {
    match declaration_head(stream) {
        Err(error) => Err(error),
        Ok(head) => {
            let s1 = stream.skip(head.len as int);
            let s2 = s1.skip(params_span(s1) as int);
            let read_params = if args_offset(s1) is Some {
                list_part(params)
            } else {
                Ok(None)
            };
            let read_trails = if has_trails(s2) {
                list_part(trails)
            } else {
                Ok(None)
            };
            match read_params {
                Err(error) => Err(error),
                Ok(params) => match read_trails {
                    Err(error) => Err(error),
                    Ok(trails) => Ok(
                        (
                            DeclarationView {
                                name: head.name,
                                ty: head.ty,
                                params,
                                trails,
                                body: declaration_body(s2.skip(trails_span(s2) as int)).0,
                            },
                            flat_span(stream),
                        ),
                    ),
                },
            }
        },
    }
}

/// The tokens inside the parameter group of the declaration at the start
/// of `stream`, where it has one.
pub open spec fn params_interior(stream: Seq<TokenView>) -> Option<Seq<TokenView>> {
    match declaration_head(stream) {
        Ok(head) => {
            let s1 = stream.skip(head.len as int);
            match args_offset(s1) {
                Some(at) => Some(s1[at as int].interior()),
                None => None,
            }
        },
        Err(_) => None,
    }
}

/// The tokens that hold the trails of the declaration at the start of
/// `stream`, where a colon opens them.
pub open spec fn trails_interior(stream: Seq<TokenView>) -> Option<Seq<TokenView>> {
    match declaration_head(stream) {
        Ok(head) => {
            let s1 = stream.skip(head.len as int);
            let s2 = s1.skip(params_span(s1) as int);
            if has_trails(s2) {
                Some(trails_segment(s2))
            } else {
                None
            }
        },
        Err(_) => None,
    }
}

/// `result` is what reading the declaration at the start of `stream`, as
/// it stands, may give: it is [`assembled`] of the outcomes of reading its
/// two lists, each an outcome that reading that list may give.
pub open spec fn flat_outcome(
    stream: Seq<TokenView>,
    result: Result<(DeclarationView, nat), ParseErrorView>,
) -> bool {
    exists|
        params: Option<Result<PunctSetView<ParamView>, ParseErrorView>>,
        trails: Option<Result<PunctSetView<DeclarationView>, ParseErrorView>>,
    |
        {
            &&& #[trigger] assembled(stream, params, trails) == result
            &&& params matches Some(outcome) ==> params_interior(stream) matches Some(inner)
                && list_outcome(inner, ',', Construct::Param, param_fitting(), outcome)
            &&& trails matches Some(outcome) ==> trails_interior(stream) matches Some(inner)
                && list_outcome(inner, '+', Construct::Declaration, trail_fitting(), outcome)
        }
}

/// The declaration at the start of `stream`, read as it stands, where
/// reading it asks no grammar: there is none where a parameter group is
/// reached, in the declaration or in one of its trails.
pub open spec fn plain_flat(stream: Seq<TokenView>) -> Option<
    Result<(DeclarationView, nat), ParseErrorView>,
>
    decreases stream_weight(stream), 2nat,
{
    match declaration_head(stream) {
        Err(error) => Some(Err(error)),
        Ok(head) => {
            let s1 = stream.skip(head.len as int);
            let s2 = s1.skip(params_span(s1) as int);
            if args_offset(s1) is Some {
                None
            } else if has_trails(s2) {
                proof {
                    let rest = s2.skip(1);
                    lemma_first_where(
                        rest,
                        |t: TokenView| TokenKind::Group(Delimiter::Brace).fits(t),
                    );
                    lemma_weight_split(stream, head.len as int);
                    lemma_weight_split(s1, 0);
                    lemma_weight_split(s2, 1);
                    lemma_weight_split(rest, body_gap(rest) as int);
                }
                if head.len <= stream.len() {
                    match plain_trails(trails_segment(s2)) {
                        Some(outcome) => Some(assembled(stream, None, Some(outcome))),
                        None => None,
                    }
                } else {
                    None
                }
            } else {
                Some(assembled(stream, None, None))
            }
        },
    }
}

/// The list of trails in `stream`, where reading it asks no grammar.
pub open spec fn plain_trails(stream: Seq<TokenView>) -> Option<
    Result<PunctSetView<DeclarationView>, ParseErrorView>,
>
    decreases stream_weight(stream), 5nat,
{
    let inner = unwrap_stream(stream, Delimiter::Parenthesis);
    proof {
        if stream.len() > 0 && stream[0].is_group(Delimiter::Parenthesis) {
            lemma_weight_interior(stream);
        }
    }
    let read = plain_readings(inner);
    if forall|i: int| 0 <= i < read.len() ==> (#[trigger] read[i]) is Some {
        Some(
            collected(
                inner,
                '+',
                Seq::new(read.len(), |i: int| read[i]->0),
                Construct::Declaration,
            ),
        )
    } else {
        None
    }
}

/// For each stretch of `stream` between the marks `+`, its reading as a
/// trail where that asks no grammar.
pub open spec fn plain_readings(stream: Seq<TokenView>) -> Seq<Option<Option<DeclarationView>>>
    decreases stream_weight(stream), 4nat,
{
    if stream.len() == 0 || lone_delim(stream, '+') {
        Seq::empty()
    } else {
        let k = first_fit(stream, TokenKind::Punct('+'));
        proof {
            lemma_first_where(stream, |t: TokenView| TokenKind::Punct('+').fits(t));
            lemma_weight_split(stream, k as int);
            if k < stream.len() {
                lemma_weight_split(stream, k as int + 1);
            }
        }
        seq![plain_element(stream.take(k as int))] + (if k < stream.len() {
            plain_readings(stream.skip(k as int + 1))
        } else {
            Seq::empty()
        })
    }
}

/// The reading of a stretch of a list of trails where that asks no
/// grammar: the declaration that the stretch is from its first token to its
/// last, or none where it is not one.
pub open spec fn plain_element(stream: Seq<TokenView>) -> Option<Option<DeclarationView>>
    decreases stream_weight(stream), 3nat,
{
    let wrapped = stream.len() > 0 && stream[0].is_group(Delimiter::Parenthesis);
    let inner = unwrap_stream(stream, Delimiter::Parenthesis);
    proof {
        if wrapped {
            lemma_weight_interior(stream);
        }
    }
    match plain_flat(inner) {
        None => None,
        Some(Ok((declaration, n))) => Some(
            if n == inner.len() && (!wrapped || stream.len() == 1) {
                Some(declaration)
            } else {
                None
            },
        ),
        Some(Err(_)) => Some(None),
    }
}

/// The declaration at the start of `stream` where reading it asks no
/// grammar. A stream that starts with a group in parentheses is read inside
/// that group, which is then the one token taken.
pub open spec fn plain_declaration(stream: Seq<TokenView>) -> Option<
    Result<(DeclarationView, nat), ParseErrorView>,
> {
    match plain_flat(unwrap_stream(stream, Delimiter::Parenthesis)) {
        Some(Ok((declaration, _))) => Some(Ok((declaration, declaration_span(stream)))),
        other => other,
    }
}

/// `result` is what reading the declaration at the start of `stream` may
/// give. A stream that starts with a group in parentheses is read inside
/// that group, which is then the one token taken.
pub open spec fn declaration_outcome(
    stream: Seq<TokenView>,
    result: Result<(DeclarationView, nat), ParseErrorView>,
) -> bool {
    match result {
        Ok((declaration, n)) => n == declaration_span(stream) && exists|m: nat| #[trigger]
            flat_outcome(
                unwrap_stream(stream, Delimiter::Parenthesis),
                Ok::<_, ParseErrorView>((declaration, m)),
            ),
        Err(error) => flat_outcome(
            unwrap_stream(stream, Delimiter::Parenthesis),
            Err::<(DeclarationView, nat), _>(error),
        ),
    }
}

/// What the two grammars answer while one declaration is read: for each
/// parameter of its parameter list in order, the length of its type and the
/// length of its default value; and for each of its trails in order, the
/// answers for that trail.
#[derive(Debug)]
pub struct Answers {
    pub params: Vec<(Option<usize>, Option<usize>)>,
    pub trails: Vec<Answers>,
}

/// The answers for the parameters of trail `i`: those of the answers at
/// `i`, or none where there are no answers for that trail.
pub open spec fn trail_lengths(answers: Seq<Answers>, i: int) -> Seq<(Option<nat>, Option<nat>)> {
    if 0 <= i < answers.len() {
        lengths_view(answers[i].params@)
    } else {
        Seq::empty()
    }
}

/// The answers for the trails of trail `i`.
pub open spec fn trail_answers(answers: Seq<Answers>, i: int) -> Seq<Answers> {
    if 0 <= i < answers.len() {
        answers[i].trails@
    } else {
        Seq::empty()
    }
}

/// The declaration at the start of `stream`, read as it stands, and how
/// many tokens it takes, where the grammars give `lengths` for its
/// parameters and `trails` for its trails: [`assembled`] of the parameter
/// list and of the list of trails that these answers give.
pub open spec fn flat_given(
    stream: Seq<TokenView>,
    lengths: Seq<(Option<nat>, Option<nat>)>,
    trails: Seq<Answers>,
) -> Result<(DeclarationView, nat), ParseErrorView>
    decreases stream_weight(stream), 2nat,
{
    match declaration_head(stream) {
        Err(error) => Err(error),
        Ok(head) => {
            let s1 = stream.skip(head.len as int);
            let s2 = s1.skip(params_span(s1) as int);
            let params = match args_offset(s1) {
                Some(at) => Some(params_given(s1[at as int].interior(), lengths)),
                None => None,
            };
            if has_trails(s2) && head.len <= stream.len() && params_span(s1) <= s1.len() {
                proof {
                    let rest = s2.skip(1);
                    lemma_first_where(
                        rest,
                        |t: TokenView| TokenKind::Group(Delimiter::Brace).fits(t),
                    );
                    lemma_weight_split(stream, head.len as int);
                    lemma_weight_split(s1, params_span(s1) as int);
                    lemma_weight_split(s2, 1);
                    lemma_weight_split(rest, body_gap(rest) as int);
                }
                assembled(stream, params, Some(trails_given(trails_segment(s2), trails)))
            } else {
                assembled(stream, params, None)
            }
        },
    }
}

/// The list of trails in `stream` where the grammars give `answers`, one
/// for each stretch in order.
pub open spec fn trails_given(stream: Seq<TokenView>, answers: Seq<Answers>) -> Result<
    PunctSetView<DeclarationView>,
    ParseErrorView,
>
    decreases stream_weight(stream), 5nat,
{
    let inner = unwrap_stream(stream, Delimiter::Parenthesis);
    proof {
        if stream.len() > 0 && stream[0].is_group(Delimiter::Parenthesis) {
            lemma_weight_interior(stream);
        }
    }
    collected(inner, '+', trail_readings(inner, answers, 0), Construct::Declaration)
}

/// For each stretch of `stream` between the marks `+`, its reading as a
/// trail where the grammars give the answers of `answers` from index `at`
/// on, one for each stretch in order.
pub open spec fn trail_readings(stream: Seq<TokenView>, answers: Seq<Answers>, at: int) -> Seq<
    Option<DeclarationView>,
>
    decreases stream_weight(stream), 4nat,
{
    if stream.len() == 0 || lone_delim(stream, '+') {
        Seq::empty()
    } else {
        let k = first_fit(stream, TokenKind::Punct('+'));
        proof {
            lemma_first_where(stream, |t: TokenView| TokenKind::Punct('+').fits(t));
            lemma_weight_split(stream, k as int);
            if k < stream.len() {
                lemma_weight_split(stream, k as int + 1);
            }
        }
        seq![
            element_given(
                stream.take(k as int),
                trail_lengths(answers, at),
                trail_answers(answers, at),
            ),
        ] + (if k < stream.len() {
            trail_readings(stream.skip(k as int + 1), answers, at + 1)
        } else {
            Seq::empty()
        })
    }
}

/// The reading of a stretch of a list of trails where the grammars give
/// `lengths` and `trails`: the declaration that the stretch is from its
/// first token to its last, or none.
pub open spec fn element_given(
    stream: Seq<TokenView>,
    lengths: Seq<(Option<nat>, Option<nat>)>,
    trails: Seq<Answers>,
) -> Option<DeclarationView>
    decreases stream_weight(stream), 3nat,
{
    let wrapped = stream.len() > 0 && stream[0].is_group(Delimiter::Parenthesis);
    let inner = unwrap_stream(stream, Delimiter::Parenthesis);
    proof {
        if wrapped {
            lemma_weight_interior(stream);
        }
    }
    match flat_given(inner, lengths, trails) {
        Ok((declaration, n)) => if n == inner.len() && (!wrapped || stream.len() == 1) {
            Some(declaration)
        } else {
            None
        },
        Err(_) => None,
    }
}

/// The declaration at the start of `stream` where the grammars give
/// `answers`. A stream that starts with a group in parentheses is read
/// inside that group.
pub open spec fn declaration_given(stream: Seq<TokenView>, answers: Answers) -> Result<
    DeclarationView,
    ParseErrorView,
> {
    match flat_given(
        unwrap_stream(stream, Delimiter::Parenthesis),
        lengths_view(answers.params@),
        answers.trails@,
    ) {
        Ok((declaration, _)) => Ok(declaration),
        Err(error) => Err(error),
    }
}

/// [`trail_readings`] holds the readings of the stretches in place.
pub proof fn lemma_trail_readings(stream: Seq<TokenView>, answers: Seq<Answers>, at: int)
    ensures
        trail_readings(stream, answers, at).len() == stretches(stream, '+').len(),
        forall|i: int|
            0 <= i < trail_readings(stream, answers, at).len() ==> #[trigger] trail_readings(
                stream,
                answers,
                at,
            )[i] == element_given(
                stretches(stream, '+')[i],
                trail_lengths(answers, at + i),
                trail_answers(answers, at + i),
            ),
    decreases stream.len(),
{
    lemma_stretches(stream, '+');
    if !(stream.len() == 0 || lone_delim(stream, '+')) {
        let k = first_fit(stream, TokenKind::Punct('+'));
        lemma_first_where(stream, |t: TokenView| TokenKind::Punct('+').fits(t));
        if k < stream.len() {
            let rest = stream.skip(k as int + 1);
            lemma_trail_readings(rest, answers, at + 1);
            lemma_stretches(rest, '+');
            assert(stretches(stream, '+') =~= seq![stream.take(k as int)] + stretches(rest, '+'));
            let all = trail_readings(stream, answers, at);
            assert forall|i: int| 0 <= i < all.len() implies #[trigger] all[i] == element_given(
                stretches(stream, '+')[i],
                trail_lengths(answers, at + i),
                trail_answers(answers, at + i),
            ) by {
                if i > 0 {
                    assert(all[i] == trail_readings(rest, answers, at + 1)[i - 1]);
                    assert(stretches(stream, '+')[i] == stretches(rest, '+')[i - 1]);
                }
            }
        } else {
            assert(stretches(stream, '+') =~= seq![stream.take(k as int)]);
        }
    }
}

/// [`plain_readings`] holds the readings of the stretches in place.
pub proof fn lemma_plain_readings(stream: Seq<TokenView>)
    ensures
        plain_readings(stream).len() == stretches(stream, '+').len(),
        forall|i: int|
            0 <= i < plain_readings(stream).len() ==> #[trigger] plain_readings(stream)[i]
                == plain_element(stretches(stream, '+')[i]),
    decreases stream.len(),
{
    lemma_stretches(stream, '+');
    if !(stream.len() == 0 || lone_delim(stream, '+')) {
        let k = first_fit(stream, TokenKind::Punct('+'));
        lemma_first_where(stream, |t: TokenView| TokenKind::Punct('+').fits(t));
        if k < stream.len() {
            let rest = stream.skip(k as int + 1);
            lemma_plain_readings(rest);
            lemma_stretches(rest, '+');
            assert(stretches(stream, '+') =~= seq![stream.take(k as int)] + stretches(rest, '+'));
        } else {
            assert(stretches(stream, '+') =~= seq![stream.take(k as int)]);
        }
    }
}

/// No stretch of a stream weighs more than the stream.
pub proof fn lemma_stretch_weight(stream: Seq<TokenView>, mark: char, i: int)
    requires
        0 <= i < stretches(stream, mark).len(),
    ensures
        stream_weight(stretches(stream, mark)[i]) <= stream_weight(stream),
    decreases stream.len(),
{
    lemma_stretches(stream, mark);
    if !(stream.len() == 0 || lone_delim(stream, mark)) {
        let k = first_fit(stream, TokenKind::Punct(mark));
        lemma_first_where(stream, |t: TokenView| TokenKind::Punct(mark).fits(t));
        lemma_weight_split(stream, k as int);
        if k < stream.len() {
            let rest = stream.skip(k as int + 1);
            lemma_stretches(rest, mark);
            lemma_weight_split(stream, k as int + 1);
            assert(stretches(stream, mark) =~= seq![stream.take(k as int)] + stretches(
                rest,
                mark,
            ));
            if i > 0 {
                lemma_stretch_weight(rest, mark, i - 1);
            }
        } else {
            assert(stretches(stream, mark) =~= seq![stream.take(k as int)]);
        }
    }
}

/// A declaration: what is being declared, under which name, with which
/// parameters, with which trailing declarations, and with which body.
#[derive(Debug, PartialEq, Eq)]
pub struct Declaration {
    pub name: Option<String>,
    pub ty: String,
    pub params: Option<Params>,
    pub trails: Option<Trails>,
    pub body: Option<Vec<Token>>,
}

/// A list of declarations parted by `+`.
pub type Trails = PunctSet<Declaration>;

/// The value of a declaration: each part by its own view.
pub open spec fn declaration_view(declaration: Declaration) -> DeclarationView
    decreases declaration,
{
    DeclarationView {
        name: declaration.name.deep_view(),
        ty: declaration.ty@,
        params: declaration.params.deep_view(),
        trails: match declaration.trails {
            Some(set) => Some(
                PunctSetView { vals: declarations_view(set.vals@), delim: set.delim.deep_view() },
            ),
            None => None,
        },
        body: declaration.body.deep_view(),
    }
}

/// The values of the declarations of a list, in order.
pub open spec fn declarations_view(list: Seq<Declaration>) -> Seq<DeclarationView>
    decreases list,
{
    if list.len() == 0 {
        Seq::empty()
    } else {
        declarations_view(list.drop_last()).push(declaration_view(list.last()))
    }
}

impl DeepView for Declaration {
    type V = DeclarationView;

    open spec fn deep_view(&self) -> DeclarationView {
        declaration_view(*self)
    }
}

/// [`declarations_view`] takes the view of each declaration in place.
proof fn lemma_declarations_view(list: Seq<Declaration>)
    ensures
        declarations_view(list).len() == list.len(),
        forall|i: int|
            0 <= i < list.len() ==> #[trigger] declarations_view(list)[i] == declaration_view(
                list[i],
            ),
    decreases list.len(),
{
    if list.len() > 0 {
        lemma_declarations_view(list.drop_last());
    }
}

/// The view of a list of trails holds the views of its declarations.
proof fn lemma_trails_view(set: Trails)
    ensures
        set.deep_view() == (PunctSetView {
            vals: declarations_view(set.vals@),
            delim: set.delim.deep_view(),
        }),
{
    lemma_declarations_view(set.vals@);
    assert(set.vals.deep_view() =~= declarations_view(set.vals@));
}

/// The written form of a declaration's parameters: one group.
pub open spec fn params_part(params: Option<PunctSetView<ParamView>>) -> Seq<TokenView> {
    match params {
        Some(set) => seq![
            TokenView::Group(Delimiter::Parenthesis, join(param_parts(set.vals), set.delim)),
        ],
        None => Seq::empty(),
    }
}

/// The written form of a declaration's body: one group in braces.
pub open spec fn body_part(body: Option<Seq<TokenView>>) -> Seq<TokenView> {
    match body {
        Some(body) => seq![TokenView::Group(Delimiter::Brace, body)],
        None => Seq::empty(),
    }
}

/// The written form of a declaration: its name and a colon, its type, its
/// parameters in parentheses, a colon and its trails, and its body in
/// braces.
pub open spec fn declaration_tokens(declaration: DeclarationView) -> Seq<TokenView>
    decreases declaration,
{
    let trails = match declaration.trails {
        Some(set) => seq![TokenView::Punct(':', Spacing::Alone)] + join(
            trail_parts(set.vals),
            set.delim,
        ),
        None => Seq::empty(),
    };
    name_part(declaration.name) + (seq![TokenView::Ident(declaration.ty)] + (params_part(
        declaration.params,
    ) + (trails + body_part(declaration.body))))
}

/// The written form of a declaration's trails: a colon and the list.
pub open spec fn trails_part(declaration: DeclarationView) -> Seq<TokenView> {
    match declaration.trails {
        Some(set) => seq![TokenView::Punct(':', Spacing::Alone)] + join(
            trail_parts(set.vals),
            set.delim,
        ),
        None => Seq::empty(),
    }
}

/// The written form of a declaration from its parameters on.
pub open spec fn params_onwards(declaration: DeclarationView) -> Seq<TokenView> {
    params_part(declaration.params) + (trails_part(declaration) + body_part(declaration.body))
}

/// The written form of a declaration is its name, its type, and the rest.
pub(crate) proof fn lemma_declaration_tokens(declaration: DeclarationView)
    ensures
        declaration_tokens(declaration) == name_part(declaration.name) + (seq![
            TokenView::Ident(declaration.ty),
        ] + params_onwards(declaration)),
{
}

/// The written forms of the declarations of a list, in order.
pub open spec fn trail_parts(vals: Seq<DeclarationView>) -> Seq<Seq<TokenView>>
    decreases vals,
{
    if vals.len() == 0 {
        Seq::empty()
    } else {
        trail_parts(vals.drop_last()).push(declaration_tokens(vals.last()))
    }
}

/// [`trail_parts`] writes each declaration in place.
pub(crate) proof fn lemma_trail_parts(vals: Seq<DeclarationView>)
    ensures
        trail_parts(vals).len() == vals.len(),
        forall|i: int|
            0 <= i < vals.len() ==> #[trigger] trail_parts(vals)[i] == declaration_tokens(vals[i]),
    decreases vals.len(),
{
    if vals.len() > 0 {
        lemma_trail_parts(vals.drop_last());
    }
}

/// A declaration as text: `[name: ]type[(params)][: trail + trail]`.
pub open spec fn declaration_text(declaration: DeclarationView) -> Seq<char> {
    (match declaration.name {
        Some(name) => name + ": "@,
        None => Seq::empty(),
    }) + declaration.ty + (match declaration.params {
        Some(set) => "("@ + stream_text(join(param_parts(set.vals), set.delim)) + ")"@,
        None => Seq::empty(),
    }) + (match declaration.trails {
        Some(set) => ": "@ + stream_text(join(trail_parts(set.vals), set.delim)),
        None => Seq::empty(),
    })
}

/// The view of the outcome of reading a list, where one is given.
pub open spec fn outcome_view<T: DeepView>(outcome: Option<Result<T, ParseError>>) -> Option<
    Result<T::V, ParseErrorView>,
> {
    match outcome {
        Some(result) => Some(result_view(result)),
        None => None,
    }
}

/// A reading with the number of tokens it takes beside it; an error as it
/// is.
pub open spec fn with_count(result: Result<DeclarationView, ParseErrorView>, n: nat) -> Result<
    (DeclarationView, nat),
    ParseErrorView,
> {
    match result {
        Ok(declaration) => Ok((declaration, n)),
        Err(error) => Err(error),
    }
}

/// The view of a declaration with the number of tokens it takes, or of
/// the error.
pub open spec fn counted_view(result: Result<(Declaration, usize), ParseError>) -> Result<
    (DeclarationView, nat),
    ParseErrorView,
> {
    match result {
        Ok((declaration, n)) => Ok((declaration.deep_view(), n as nat)),
        Err(error) => Err(error.deep_view()),
    }
}

impl Declaration {
    /// Reads the head of a declaration: its name, where an identifier and a
    /// colon come first, and its type. On an error the cursor stays where it
    /// was.
    pub fn parse_head(cursor: &mut Cursor) -> (result: Result<(Option<String>, String), ParseError>)
        ensures
            final(cursor).stream() == old(cursor).stream(),
            match result {
                Ok((name, ty)) => declaration_head(old(cursor).rest()) matches Ok(head)
                    && head.name == name.deep_view() && head.ty == ty@ && 1 <= head.len <= old(cursor).rest().len() && final(cursor).position() == old(cursor).position() + head.len
                    && final(cursor).rest() == old(cursor).rest().skip(head.len as int),
                Err(error) => declaration_head(old(cursor).rest()) == Err::<
                    DeclarationHeadView,
                    _,
                >(error.deep_view()) && final(cursor).position() == old(cursor).position()
                    && final(cursor).rest() == old(cursor).rest(),
            },
    {
        let named = match cursor.peek(0) {
            Some(first) => first.is_ident() && match cursor.peek(1) {
                Some(second) => second.is_punct(':'),
                None => false,
            },
            None => false,
        };
        let p0: usize = if named {
            2
        } else {
            0
        };
        let name = if named {
            match cursor.peek(0) {
                Some(token) => match token.ident_name() {
                    Some(name) => Some(name.clone()),
                    None => None,
                },
                None => None,
            }
        } else {
            None
        };
        let ty = match cursor.peek(p0) {
            Some(token) => match token.ident_name() {
                Some(ty) => Some(ty.clone()),
                None => None,
            },
            None => None,
        };
        match ty {
            Some(ty) => {
                cursor.advance(p0 + 1);
                Ok((name, ty))
            },
            None => {
                let mut fork = cursor.fork();
                fork.advance(p0);
                Err(
                    ParseError::new(
                        ErrorKind::MissingType,
                        fork.snapshot(),
                        Construct::Declaration,
                    ),
                )
            },
        }
    }

    /// Reads the body: the inside of the group in braces at the cursor.
    /// Where none stands there, there is no body and the cursor stays.
    pub fn parse_body(cursor: &mut Cursor) -> (body: Option<Vec<Token>>)
        ensures
            final(cursor).stream() == old(cursor).stream(),
            declaration_body(old(cursor).rest()).0 == body.deep_view(),
            final(cursor).position() == old(cursor).position() + declaration_body(
                old(cursor).rest(),
            ).1,
            final(cursor).rest() == old(cursor).rest().skip(
                declaration_body(old(cursor).rest()).1 as int,
            ),
    {
        let ghost rest = cursor.rest();
        assert(rest.skip(0) =~= rest);
        let inner = match cursor.peek(0) {
            Some(token) => if token.is_group(Delimiter::Brace) {
                token.group_interior()
            } else {
                None
            },
            None => None,
        };
        match inner {
            Some(inner) => {
                cursor.advance(1);
                Some(clone_tokens(inner))
            },
            None => None,
        }
    }

    /// Makes the declaration that `tokens` starts with, as it stands, of
    /// what `tokens` fixes and of the outcomes of reading its two lists:
    /// `params` for the list in the parameter group, `trails` for the list
    /// after the colon. An outcome counts only where `tokens` holds its
    /// list; the error of the head comes first, then that of the
    /// parameters, then that of the trails.
    pub fn assemble(
        tokens: &Vec<Token>,
        params: Option<Result<Params, ParseError>>,
        trails: Option<Result<Trails, ParseError>>,
    ) -> (result: Result<(Declaration, usize), ParseError>)
        ensures
            counted_view(result) == assembled(
                tokens.deep_view(),
                outcome_view(params),
                outcome_view(trails),
            ),
            result matches Ok((_, n)) ==> n <= tokens.len(),
    {
        let mut cursor = Cursor::new(tokens);
        let (name, ty) = match Declaration::parse_head(&mut cursor) {
            Ok(head) => head,
            Err(error) => {
                return Err(error);
            },
        };
        let span = Declaration::params_len(&cursor);
        cursor.advance(span);
        let ghost s2 = cursor.rest();
        let has_params = span > 0;
        let has_trails = comes_next(&cursor, TokenKind::Punct(':'));
        if has_trails {
            cursor.advance(1);
        }
        parse_until(&mut cursor, TokenKind::Group(Delimiter::Brace));
        proof {
            if has_trails {
                assert(s2.skip(1).skip(body_gap(s2.skip(1)) as int) =~= s2.skip(
                    trails_span(s2) as int,
                ));
            }
        }
        let body = Declaration::parse_body(&mut cursor);
        let taken = cursor.offset();
        let params = if has_params {
            match params {
                Some(Ok(set)) => Some(set),
                Some(Err(error)) => {
                    return Err(error.within(Construct::Declaration));
                },
                None => None,
            }
        } else {
            None
        };
        let trails = if has_trails {
            match trails {
                Some(Ok(set)) => {
                    proof {
                        lemma_trails_view(set);
                    }
                    Some(set)
                },
                Some(Err(error)) => {
                    return Err(error.within(Construct::Declaration));
                },
                None => None,
            }
        } else {
            None
        };
        Ok((Declaration { name, ty, params, trails, body }, taken))
    }

    /// How many tokens the parameters at the cursor take: the group found
    /// one token after the cursor and the token in front of it, or the
    /// group at the cursor, or nothing.
    pub fn params_len(cursor: &Cursor) -> (span: usize)
        ensures
            span == params_span(cursor.rest()),
            span <= cursor.rest().len(),
            span > 0 <==> args_offset(cursor.rest()) is Some,
    {
        let later = match cursor.peek(1) {
            Some(token) => token.is_group(Delimiter::Parenthesis),
            None => false,
        };
        let direct = match cursor.peek(0) {
            Some(token) => token.is_group(Delimiter::Parenthesis),
            None => false,
        };
        if later {
            2
        } else if direct {
            1
        } else {
            0
        }
    }

    /// Reads the declaration that `tokens` starts with, as it stands, and
    /// says how many tokens it takes. Its two lists are read where `tokens`
    /// holds them, and [`Declaration::assemble`] makes the declaration of
    /// the outcomes. Where no parameter group is reached, nothing outside
    /// this library is asked, and the result is the one that
    /// [`plain_flat`] gives.
    pub fn parse_flat(tokens: &Vec<Token>) -> (result: Result<(Declaration, usize), ParseError>)
        ensures
            flat_outcome(tokens.deep_view(), counted_view(result)),
            result matches Ok((declaration, n)) ==> reads_flat(
                tokens.deep_view(),
                declaration.deep_view(),
            ) && n == flat_span(tokens.deep_view()) && n <= tokens.len(),
            plain_flat(tokens.deep_view()) matches Some(outcome) ==> counted_view(result)
                == outcome,
        decreases stream_weight(tokens.deep_view()), 2nat,
    {
        let ghost stream = tokens.deep_view();
        let mut cursor = Cursor::new(tokens);
        if Declaration::parse_head(&mut cursor).is_err() {
            let result = Declaration::assemble(tokens, None, None);
            assert(assembled(stream, None, None) == counted_view(result));
            return result;
        }
        let ghost head = declaration_head(stream)->Ok_0;
        let ghost s1 = cursor.rest();
        let span = Declaration::params_len(&cursor);
        let params = if span > 0 {
            match cursor.at(span - 1).group_interior() {
                Some(inner) => Some(Params::parse(inner)),
                None => None,
            }
        } else {
            None
        };
        cursor.advance(span);
        let ghost s2 = cursor.rest();
        let trails = if comes_next(&cursor, TokenKind::Punct(':')) {
            cursor.advance(1);
            let ghost rest = cursor.rest();
            let segment = parse_until(&mut cursor, TokenKind::Group(Delimiter::Brace));
            proof {
                lemma_weight_split(stream, head.len as int);
                lemma_weight_split(s1, span as int);
                lemma_weight_split(s2, 1);
                lemma_weight_split(rest, body_gap(rest) as int);
            }
            Some(Trails::parse(&segment))
        } else {
            None
        };
        let ghost given_params = outcome_view(params);
        let ghost given_trails = outcome_view(trails);
        let result = Declaration::assemble(tokens, params, trails);
        proof {
            assert(assembled(stream, given_params, given_trails) == counted_view(result));
            if span == 0 {
                assert(s1.skip(0) =~= s1);
            }
        }
        result
    }

    /// Reads the declaration that `tokens` starts with. A stream that
    /// starts with a group in parentheses is read inside that group. Tokens
    /// after the declaration are not looked at. Where no parameter group is
    /// reached, nothing outside this library is asked, and the result is
    /// the one that [`plain_declaration`] gives.
    pub fn parse(tokens: &Vec<Token>) -> (result: Result<Declaration, ParseError>)
        ensures
            declaration_outcome(
                tokens.deep_view(),
                with_count(result_view(result), declaration_span(tokens.deep_view())),
            ),
            result matches Ok(declaration) ==> reads_declaration(
                tokens.deep_view(),
                declaration.deep_view(),
            ),
            plain_declaration(tokens.deep_view()) matches Some(outcome) ==> with_count(
                result_view(result),
                declaration_span(tokens.deep_view()),
            ) == outcome,
    {
        let inner = unwrap_input(tokens, Delimiter::Parenthesis);
        match Declaration::parse_flat(inner) {
            Ok((declaration, n)) => {
                proof {
                    let view = tokens.deep_view();
                    assert(flat_outcome(
                        unwrap_stream(view, Delimiter::Parenthesis),
                        Ok::<_, ParseErrorView>((declaration.deep_view(), n as nat)),
                    ));
                    assert(declaration_outcome(
                        view,
                        Ok::<_, ParseErrorView>((declaration.deep_view(), declaration_span(view))),
                    ));
                }
                Ok(declaration)
            },
            Err(error) => {
                Err(error)
            },
        }
    }

    /// Reads one declaration at the cursor. A group in parentheses at the
    /// cursor is read inside, and is then the one token passed over. On an
    /// error the cursor stays where it was.
    pub fn parse_cursor(cursor: &mut Cursor) -> (result: Result<Declaration, ParseError>)
        ensures
            final(cursor).stream() == old(cursor).stream(),
            declaration_outcome(
                old(cursor).rest(),
                with_count(
                    result_view(result),
                    (final(cursor).position() - old(cursor).position()) as nat,
                ),
            ),
            result matches Ok(declaration) ==> reads_declaration(
                old(cursor).rest(),
                declaration.deep_view(),
            ),
            result is Err ==> final(cursor).position() == old(cursor).position(),
            final(cursor).position() >= old(cursor).position(),
            final(cursor).rest() == old(cursor).rest().skip(
                final(cursor).position() - old(cursor).position(),
            ),
            plain_declaration(old(cursor).rest()) matches Some(outcome) ==> with_count(
                result_view(result),
                (final(cursor).position() - old(cursor).position()) as nat,
            ) == outcome,
    {
        let ghost rest = cursor.rest();
        assert(rest.skip(0) =~= rest);
        let wrapped = comes_next(cursor, TokenKind::Group(Delimiter::Parenthesis));
        let left = cursor.snapshot();
        let inner = unwrap_input(&left, Delimiter::Parenthesis);
        match Declaration::parse_flat(inner) {
            Ok((declaration, n)) => {
                if wrapped {
                    cursor.advance(1);
                } else {
                    cursor.advance(n);
                }
                proof {
                    assert(flat_outcome(
                        unwrap_stream(rest, Delimiter::Parenthesis),
                        Ok::<_, ParseErrorView>((declaration.deep_view(), n as nat)),
                    ));
                }
                Ok(declaration)
            },
            Err(error) => Err(error),
        }
    }

    /// Reads the declaration that `tokens` starts with where the answers of
    /// the grammars are given. A stream that starts with a group in
    /// parentheses is read inside that group. Tokens after the declaration
    /// are not looked at.
    pub fn parse_given(tokens: &Vec<Token>, answers: &Answers) -> (result: Result<
        Declaration,
        ParseError,
    >)
        ensures
            result_view(result) == declaration_given(tokens.deep_view(), *answers),
    {
        let inner = unwrap_input(tokens, Delimiter::Parenthesis);
        match Declaration::flat_given(inner, &answers.params, &answers.trails) {
            Ok((declaration, _)) => Ok(declaration),
            Err(error) => Err(error),
        }
    }

    /// Reads the declaration that `tokens` starts with, as it stands, where
    /// the grammars give `lengths` for its parameters and `trails` for its
    /// trails, and says how many tokens it takes.
    pub fn flat_given(
        tokens: &Vec<Token>,
        lengths: &Vec<(Option<usize>, Option<usize>)>,
        trails: &Vec<Answers>,
    ) -> (result: Result<(Declaration, usize), ParseError>)
        ensures
            counted_view(result) == flat_given(
                tokens.deep_view(),
                lengths_view(lengths@),
                trails@,
            ),
            result matches Ok((_, n)) ==> n <= tokens.len(),
        decreases stream_weight(tokens.deep_view()), 2nat,
    {
        let ghost stream = tokens.deep_view();
        let mut cursor = Cursor::new(tokens);
        if Declaration::parse_head(&mut cursor).is_err() {
            return Declaration::assemble(tokens, None, None);
        }
        let ghost head = declaration_head(stream)->Ok_0;
        let ghost s1 = cursor.rest();
        let span = Declaration::params_len(&cursor);
        let params = if span > 0 {
            match cursor.at(span - 1).group_interior() {
                Some(inner) => Some(Params::parse_given(inner, lengths)),
                None => None,
            }
        } else {
            None
        };
        cursor.advance(span);
        let ghost s2 = cursor.rest();
        let read_trails = if comes_next(&cursor, TokenKind::Punct(':')) {
            cursor.advance(1);
            let ghost rest = cursor.rest();
            let segment = parse_until(&mut cursor, TokenKind::Group(Delimiter::Brace));
            proof {
                lemma_weight_split(stream, head.len as int);
                lemma_weight_split(s1, span as int);
                lemma_weight_split(s2, 1);
                lemma_weight_split(rest, body_gap(rest) as int);
            }
            Some(Trails::parse_given(&segment, trails))
        } else {
            None
        };
        Declaration::assemble(tokens, params, read_trails)
    }

    /// Reads a stretch of a list of trails as one declaration where the
    /// answers of the grammars are given.
    fn element_given(
        tokens: &Vec<Token>,
        lengths: &Vec<(Option<usize>, Option<usize>)>,
        trails: &Vec<Answers>,
    ) -> (result: Option<Declaration>)
        ensures
            result.deep_view() == element_given(
                tokens.deep_view(),
                lengths_view(lengths@),
                trails@,
            ),
        decreases stream_weight(tokens.deep_view()), 3nat,
    {
        let wrapped = tokens.len() > 0 && tokens[0].is_group(Delimiter::Parenthesis);
        let inner = unwrap_input(tokens, Delimiter::Parenthesis);
        proof {
            if wrapped {
                lemma_weight_interior(tokens.deep_view());
            }
        }
        match Declaration::flat_given(inner, lengths, trails) {
            Ok((declaration, n)) => if n == inner.len() && (!wrapped || tokens.len() == 1) {
                Some(declaration)
            } else {
                None
            },
            Err(_) => None,
        }
    }

    /// Reads a stretch of a list of trails as one declaration: the stretch,
    /// or the inside of the parentheses that wrap all of it, must be a
    /// declaration from the first token to the last. What comes back fits
    /// the stretch; where no parameter group is reached, it is what
    /// [`plain_element`] gives.
    fn parse_element(tokens: &Vec<Token>) -> (result: Option<Declaration>)
        ensures
            result matches Some(declaration) ==> trail_fits(
                tokens.deep_view(),
                declaration.deep_view(),
            ),
            plain_element(tokens.deep_view()) matches Some(outcome) ==> result.deep_view()
                == outcome,
        decreases stream_weight(tokens.deep_view()), 3nat,
    {
        let wrapped = tokens.len() > 0 && tokens[0].is_group(Delimiter::Parenthesis);
        let inner = unwrap_input(tokens, Delimiter::Parenthesis);
        proof {
            if wrapped {
                lemma_weight_interior(tokens.deep_view());
            }
        }
        match Declaration::parse_flat(inner) {
            Ok((declaration, n)) => if n == inner.len() && (!wrapped || tokens.len() == 1) {
                Some(declaration)
            } else {
                None
            },
            Err(_) => None,
        }
    }

    /// Writes out the declaration from its parameters on.
    fn write_params_onwards(&self) -> (tokens: Vec<Token>)
        ensures
            tokens.deep_view() == params_onwards(self.deep_view()),
        decreases self, 0nat,
    {
        let mut tokens: Vec<Token> = Vec::new();
        match &self.params {
            Some(set) => {
                let inner = set.to_tokens();
                tokens.push(Token::group(Delimiter::Parenthesis, inner));
            },
            None => {},
        }
        assert(tokens.deep_view() =~= params_part(self.deep_view().params));
        let mut tail: Vec<Token> = Vec::new();
        match &self.trails {
            Some(set) => {
                tail.push(Token::Punct(':', Spacing::Alone));
                let mut inner = set.to_tokens();
                proof {
                    lemma_trails_view(*set);
                }
                tail.append(&mut inner);
            },
            None => {},
        }
        assert(tail.deep_view() =~= trails_part(self.deep_view()));
        match &self.body {
            Some(body) => {
                tail.push(Token::group(Delimiter::Brace, clone_tokens(body)));
            },
            None => {},
        }
        assert(tail.deep_view() =~= trails_part(self.deep_view()) + body_part(
            self.deep_view().body,
        ));
        tokens.append(&mut tail);
        assert(tokens.deep_view() =~= params_onwards(self.deep_view()));
        tokens
    }

    /// Writes the declaration out.
    pub fn to_tokens(&self) -> (tokens: Vec<Token>)
        ensures
            tokens.deep_view() == declaration_tokens(self.deep_view()),
        decreases self, 1nat,
    {
        let mut tokens: Vec<Token> = Vec::new();
        match &self.name {
            Some(name) => {
                tokens.push(Token::Ident(name.clone()));
                tokens.push(Token::Punct(':', Spacing::Alone));
            },
            None => {},
        }
        assert(tokens.deep_view() =~= name_part(self.deep_view().name));
        let mut rest: Vec<Token> = Vec::new();
        rest.push(Token::Ident(self.ty.clone()));
        let mut onwards = self.write_params_onwards();
        rest.append(&mut onwards);
        assert(rest.deep_view() =~= seq![TokenView::Ident(self.ty@)] + params_onwards(
            self.deep_view(),
        ));
        tokens.append(&mut rest);
        proof {
            lemma_declaration_tokens(self.deep_view());
        }
        tokens
    }

    /// The declaration as text: `[name: ]type[(params)][: trail + trail]`.
    pub fn display(&self) -> (text: String)
        ensures
            text@ == declaration_text(self.deep_view()),
    {
        let mut text = String::new();
        match &self.name {
            Some(name) => {
                text.append(name.as_str());
                text.append(": ");
            },
            None => {},
        }
        text.append(self.ty.as_str());
        match &self.params {
            Some(set) => {
                text.append("(");
                let inner = set.to_tokens();
                write_stream(&inner, &mut text);
                text.append(")");
            },
            None => {},
        }
        match &self.trails {
            Some(set) => {
                text.append(": ");
                let inner = set.to_tokens();
                proof {
                    lemma_trails_view(*set);
                }
                write_stream(&inner, &mut text);
            },
            None => {},
        }
        assert(text@ =~= declaration_text(self.deep_view()));
        text
    }
}

/// The call that builds what a declaration declares: its type, `::new`,
/// and its parameters in parentheses.
pub open spec fn build_block(declaration: DeclarationView) -> Seq<TokenView> {
    seq![
        TokenView::Ident(declaration.ty),
        TokenView::Punct(':', Spacing::Joint),
        TokenView::Punct(':', Spacing::Alone),
        TokenView::Ident("new"@),
        TokenView::Group(
            Delimiter::Parenthesis,
            match declaration.params {
                Some(set) => join(param_parts(set.vals), set.delim),
                None => Seq::empty(),
            },
        ),
    ]
}

impl Declaration {
    /// The call that builds what the declaration declares:
    /// `Type::new(params)`.
    pub fn as_widget_build_block(&self) -> (tokens: Vec<Token>)
        ensures
            tokens.deep_view() == build_block(self.deep_view()),
    {
        let inner = match &self.params {
            Some(set) => set.to_tokens(),
            None => {
                let nothing: Vec<Token> = Vec::new();
                assert(nothing.deep_view() =~= Seq::<TokenView>::empty());
                nothing
            },
        };
        let mut tokens: Vec<Token> = Vec::new();
        tokens.push(Token::Ident(self.ty.clone()));
        tokens.push(Token::Punct(':', Spacing::Joint));
        tokens.push(Token::Punct(':', Spacing::Alone));
        tokens.push(Token::Ident(String::from_str("new")));
        tokens.push(Token::group(Delimiter::Parenthesis, inner));
        assert(tokens.deep_view() =~= build_block(self.deep_view()));
        tokens
    }
}

impl PunctSet<Declaration> {
    /// Reads a list of trails: declarations parted by `+`. A stream that
    /// starts with a group in parentheses is read inside that group. Each
    /// stretch between the marks is read as a declaration from its first
    /// token to its last, and [`collect`] makes the list of the outcomes.
    /// Where no parameter group is reached, nothing outside this library is
    /// asked, and the result is the one that [`plain_trails`] gives.
    pub fn parse(tokens: &Vec<Token>) -> (result: Result<Self, ParseError>)
        ensures
            list_outcome(
                tokens.deep_view(),
                '+',
                Construct::Declaration,
                trail_fitting(),
                result_view(result),
            ),
            result matches Ok(set) ==> trails_fit(tokens.deep_view(), set.deep_view()),
            plain_trails(tokens.deep_view()) matches Some(outcome) ==> result_view(result)
                == outcome,
        decreases stream_weight(tokens.deep_view()), 5nat,
    {
        let inner = unwrap_input(tokens, Delimiter::Parenthesis);
        let parts = split(inner, '+');
        let ghost stream = inner.deep_view();
        let ghost stretches = parts.deep_view();
        proof {
            let outer = tokens.deep_view();
            if outer.len() > 0 && outer[0].is_group(Delimiter::Parenthesis) {
                lemma_weight_interior(outer);
            }
            lemma_plain_readings(stream);
        }
        let mut read: Vec<Option<Declaration>> = Vec::new();
        let mut i: usize = 0;
        while i < parts.len()
            invariant
                i <= parts.len(),
                read.len() == i,
                stretches == parts.deep_view(),
                stretches == crate::punct_set::stretches(stream, '+'),
                stream_weight(stream) <= stream_weight(tokens.deep_view()),
                forall|j: int|
                    0 <= j < i ==> ((#[trigger] read@[j]) matches Some(declaration) ==> trail_fits(
                        stretches[j],
                        declaration.deep_view(),
                    )),
                forall|j: int|
                    0 <= j < i ==> (plain_element(stretches[j]) matches Some(outcome) ==> (
                    #[trigger] read@[j]).deep_view() == outcome),
            decreases parts.len() - i,
        {
            proof {
                lemma_stretch_weight(stream, '+', i as int);
            }
            read.push(Declaration::parse_element(&parts[i]));
            i += 1;
        }
        proof {
            let given = read.deep_view();
            assert forall|j: int| 0 <= j < stretches.len() implies ((#[trigger] given[j]) matches Some(
                value,
            ) ==> trail_fitting()(stretches[j], value)) by {
                assert(given[j] == read@[j].deep_view());
            }
            lemma_collected(
                tokens.deep_view(),
                '+',
                given,
                Construct::Declaration,
                trail_fitting(),
            );
            let plain = plain_readings(stream);
            if forall|j: int| 0 <= j < plain.len() ==> (#[trigger] plain[j]) is Some {
                assert forall|j: int| 0 <= j < given.len() implies #[trigger] given[j]
                    == plain[j]->0 by {
                    assert(plain[j] is Some);
                    assert(given[j] == read@[j].deep_view());
                }
                assert(given =~= Seq::new(plain.len(), |j: int| plain[j]->0));
            }
        }
        let result = collect(inner, '+', read, Construct::Declaration);
        proof {
            if result is Ok {
                lemma_trails_view(result->Ok_0);
            }
        }
        result
    }

    /// Reads a list of trails where the answers of the grammars are given,
    /// one for each stretch in order. A stretch without answers is read with
    /// none.
    pub fn parse_given(tokens: &Vec<Token>, answers: &Vec<Answers>) -> (result: Result<
        Self,
        ParseError,
    >)
        ensures
            result_view(result) == trails_given(tokens.deep_view(), answers@),
        decreases stream_weight(tokens.deep_view()), 5nat,
    {
        let inner = unwrap_input(tokens, Delimiter::Parenthesis);
        let parts = split(inner, '+');
        let ghost stream = inner.deep_view();
        let ghost stretches = parts.deep_view();
        proof {
            let outer = tokens.deep_view();
            if outer.len() > 0 && outer[0].is_group(Delimiter::Parenthesis) {
                lemma_weight_interior(outer);
            }
            lemma_trail_readings(stream, answers@, 0);
        }
        let no_lengths: Vec<(Option<usize>, Option<usize>)> = Vec::new();
        let no_answers: Vec<Answers> = Vec::new();
        assert(lengths_view(no_lengths@) =~= Seq::empty());
        let mut read: Vec<Option<Declaration>> = Vec::new();
        let mut i: usize = 0;
        while i < parts.len()
            invariant
                i <= parts.len(),
                read.len() == i,
                stretches == parts.deep_view(),
                stretches == crate::punct_set::stretches(stream, '+'),
                stream_weight(stream) <= stream_weight(tokens.deep_view()),
                lengths_view(no_lengths@) == Seq::<(Option<nat>, Option<nat>)>::empty(),
                no_answers@ == Seq::<Answers>::empty(),
                forall|j: int|
                    0 <= j < i ==> (#[trigger] read@[j]).deep_view() == element_given(
                        stretches[j],
                        trail_lengths(answers@, j),
                        trail_answers(answers@, j),
                    ),
            decreases parts.len() - i,
        {
            proof {
                lemma_stretch_weight(stream, '+', i as int);
            }
            let one = if i < answers.len() {
                Declaration::element_given(&parts[i], &answers[i].params, &answers[i].trails)
            } else {
                Declaration::element_given(&parts[i], &no_lengths, &no_answers)
            };
            read.push(one);
            i += 1;
        }
        assert(read.deep_view() =~= trail_readings(stream, answers@, 0));
        let result = collect(inner, '+', read, Construct::Declaration);
        proof {
            if result is Ok {
                lemma_trails_view(result->Ok_0);
            }
        }
        result
    }

    /// Writes the list out: its declarations in order, with the separator
    /// between each two and none after the last.
    pub fn to_tokens(&self) -> (tokens: Vec<Token>)
        ensures
            tokens.deep_view() == join(trail_parts(self.deep_view().vals), self.deep_view().delim),
        decreases self, 2nat,
    {
        let ghost wanted = trail_parts(self.deep_view().vals);
        proof {
            lemma_trail_parts(self.deep_view().vals);
        }
        let mut parts: Vec<Vec<Token>> = Vec::new();
        let mut i: usize = 0;
        while i < self.vals.len()
            invariant
                i <= self.vals.len(),
                parts.len() == i,
                wanted == trail_parts(self.deep_view().vals),
                wanted.len() == self.vals.len(),
                forall|j: int| 0 <= j < i ==> (#[trigger] parts@[j]).deep_view() == wanted[j],
                forall|j: int|
                    0 <= j < wanted.len() ==> #[trigger] wanted[j] == declaration_tokens(
                        self.vals@[j].deep_view(),
                    ),
            decreases self.vals.len() - i,
        {
            parts.push(self.vals[i].to_tokens());
            i += 1;
        }
        assert(parts.deep_view() =~= wanted);
        write_joined(&parts, &self.delim)
    }

    /// The list as text.
    pub fn display(&self) -> (text: String)
        ensures
            text@ == stream_text(
                join(trail_parts(self.deep_view().vals), self.deep_view().delim),
            ),
    {
        let tokens = self.to_tokens();
        stream_to_string(&tokens)
    }
}

} // verus!
