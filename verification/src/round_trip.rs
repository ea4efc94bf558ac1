//! Reading back what was written: a tree in canonical form, written out as
//! tokens, is read as the same tree.

use crate::declaration::{
    body_gap, body_part, declaration_body, declaration_head, declaration_span,
    declaration_tokens, flat_span, has_trails, lemma_declaration_tokens, lemma_trail_parts,
    params_onwards, params_part, params_read, params_span, reads_declaration, reads_flat,
    trail_fits, trail_parts, trails_fit, trails_part, trails_segment, trails_span,
    DeclarationView,
};
use crate::error::{Construct, ParseErrorView};
use crate::param::{
    args_offset, args_part, default_len_of, default_part, mut_onwards, name_onwards, name_part,
    param_args, param_default, param_fits, param_fitting, param_head, param_parts, param_reads,
    lemma_parse_param_parts, param_tokens, param_type, type_onwards, ParamView,
};
use crate::parse_utils::{first_fit, lemma_first_where_is, unwrap_stream};
use crate::punct_set::{
    collected, elements, join, lemma_first_none_is, lemma_stretches, lone_delim, observed_delim,
    punct_set, raw_set, separator, set_fits, stretches, values, PunctSetView,
};
use crate::token::{Delimiter, Spacing, TokenKind, TokenView};
use vstd::prelude::*;

verus! {

/// No token of `stream` is the punctuation mark `mark`.
pub open spec fn mark_free(stream: Seq<TokenView>, mark: char) -> bool {
    forall|i: int| 0 <= i < stream.len() ==> !(#[trigger] stream[i]).is_punct(mark)
}

/// The parts of a set can be told apart again once they are joined: there
/// is at least one part, a separator is kept exactly when there are two
/// parts or more and is the mark, no part holds the mark, the last part is
/// not empty, and the whole does not start with a group in parentheses.
pub open spec fn parts_canonical(
    parts: Seq<Seq<TokenView>>,
    delim: Option<TokenView>,
    mark: char,
) -> bool {
    &&& parts.len() >= 1
    &&& parts.len() == 1 ==> delim is None
    &&& parts.len() >= 2 ==> delim is Some && delim->0.is_punct(mark)
    &&& forall|i: int| 0 <= i < parts.len() ==> mark_free(#[trigger] parts[i], mark)
    &&& parts.last().len() > 0
    &&& !join(parts, delim)[0].is_group(Delimiter::Parenthesis)
}

/// A stream without the mark has its first mark at its end.
proof fn lemma_first_fit_free(stream: Seq<TokenView>, mark: char)
    requires
        mark_free(stream, mark),
    ensures
        first_fit(stream, TokenKind::Punct(mark)) == stream.len(),
{
    lemma_first_where_is(
        stream,
        |t: TokenView| TokenKind::Punct(mark).fits(t),
        stream.len() as int,
    );
}

/// A stream without the mark, then the mark, then anything: the first mark
/// is the one in the middle.
proof fn lemma_first_fit_concat(
    head: Seq<TokenView>,
    delim: TokenView,
    tail: Seq<TokenView>,
    mark: char,
)
    requires
        mark_free(head, mark),
        delim.is_punct(mark),
    ensures
        first_fit(head + seq![delim] + tail, TokenKind::Punct(mark)) == head.len(),
{
    let stream = head + seq![delim] + tail;
    assert forall|j: int| 0 <= j < head.len() implies !TokenKind::Punct(mark).fits(
        #[trigger] stream[j],
    ) by {
        assert(stream[j] == head[j]);
    }
    assert(stream[head.len() as int] == delim);
    lemma_first_where_is(
        stream,
        |t: TokenView| TokenKind::Punct(mark).fits(t),
        head.len() as int,
    );
}

/// A joined set of two parts or more is its first part, the separator, and
/// the rest joined.
proof fn lemma_join_front(parts: Seq<Seq<TokenView>>, delim: Option<TokenView>)
    requires
        parts.len() >= 2,
    ensures
        join(parts, delim) == parts[0] + separator(delim) + join(parts.drop_first(), delim),
    decreases parts.len(),
{
    let front = parts.drop_last();
    let back = parts.drop_first();
    if parts.len() == 2 {
        assert(join(front, delim) == parts[0]);
        assert(join(back, delim) == parts[1]);
    } else {
        lemma_join_front(front, delim);
        assert(front.drop_first() =~= back.drop_last());
        assert(front[0] == parts[0]);
        assert(back.last() == parts.last());
        assert(join(parts, delim) =~= parts[0] + separator(delim) + (join(back.drop_last(), delim)
            + separator(delim) + back.last()));
    }
}

/// A joined set is at least as long as its last part.
proof fn lemma_join_len(parts: Seq<Seq<TokenView>>, delim: Option<TokenView>)
    requires
        parts.len() >= 1,
    ensures
        join(parts, delim).len() >= parts.last().len(),
{
}

/// Reading the elements of a joined set gives the values of its parts, when
/// each part reads as its value and the parts can be told apart.
#[verifier::rlimit(40)]
proof fn lemma_elements_join<V>(
    parts: Seq<Seq<TokenView>>,
    vals: Seq<V>,
    delim: Option<TokenView>,
    mark: char,
    expected: Construct,
    element: spec_fn(Seq<TokenView>) -> Option<V>,
)
    requires
        parts.len() == vals.len(),
        parts.len() >= 1,
        parts.len() >= 2 ==> delim is Some && delim->0.is_punct(mark),
        forall|i: int| 0 <= i < parts.len() ==> mark_free(#[trigger] parts[i], mark),
        forall|i: int| 0 <= i < parts.len() ==> element(#[trigger] parts[i]) == Some(vals[i]),
        parts.last().len() > 0,
    ensures
        elements(join(parts, delim), mark, expected, element) == Ok::<Seq<V>, ParseErrorView>(
            vals,
        ),
        observed_delim(join(parts, delim), mark) == if parts.len() >= 2 {
            delim
        } else {
            None
        },
    decreases parts.len(),
{
    let stream = join(parts, delim);
    if parts.len() == 1 {
        assert(stream == parts[0]);
        lemma_first_fit_free(stream, mark);
        assert(!lone_delim(stream, mark)) by {
            if stream.len() == 1 {
                assert(!stream[0].is_punct(mark));
            }
        }
        assert(stream.take(stream.len() as int) =~= stream);
        assert(seq![vals[0]] =~= vals);
    } else {
        let d = delim->0;
        let rest_parts = parts.drop_first();
        let rest_vals = vals.drop_first();
        let rest = join(rest_parts, delim);
        lemma_join_front(parts, delim);
        assert(stream == parts[0] + seq![d] + rest);
        lemma_first_fit_concat(parts[0], d, rest, mark);
        let k = parts[0].len() as int;
        assert(rest_parts.last() == parts.last());
        lemma_join_len(rest_parts, delim);
        assert(!lone_delim(stream, mark));
        assert(stream.take(k) =~= parts[0]);
        assert(stream.skip(k + 1) =~= rest);
        assert(stream[k] == d);
        assert forall|i: int| 0 <= i < rest_parts.len() implies mark_free(
            #[trigger] rest_parts[i],
            mark,
        ) by {
            assert(rest_parts[i] == parts[i + 1]);
        }
        assert forall|i: int| 0 <= i < rest_parts.len() implies element(#[trigger] rest_parts[i])
            == Some(rest_vals[i]) by {
            assert(rest_parts[i] == parts[i + 1]);
            assert(rest_vals[i] == vals[i + 1]);
        }
        lemma_elements_join(rest_parts, rest_vals, delim, mark, expected, element);
        assert(element(parts[0]) == Some(vals[0]));
        assert(seq![vals[0]] + rest_vals =~= vals);
    }
}

/// Reading a joined set gives the set back, when each part reads as its
/// value and the parts can be told apart.
proof fn lemma_punct_set_join<V>(
    parts: Seq<Seq<TokenView>>,
    set: PunctSetView<V>,
    mark: char,
    expected: Construct,
    element: spec_fn(Seq<TokenView>) -> Option<V>,
)
    requires
        parts.len() == set.vals.len(),
        parts_canonical(parts, set.delim, mark),
        forall|i: int| 0 <= i < parts.len() ==> element(#[trigger] parts[i]) == Some(set.vals[i]),
    ensures
        punct_set(join(parts, set.delim), mark, expected, element) == Ok::<_, ParseErrorView>(set),
{
    let stream = join(parts, set.delim);
    lemma_stretches_join(parts, set.delim, mark);
    let read = Seq::new(parts.len(), |i: int| element(parts[i]));
    lemma_first_none_is(read, read.len() as int);
    assert(values(read) =~= set.vals);
}

/// A set of raw stretches is in canonical form when its stretches can be
/// told apart again once they are joined by commas or by another mark.
pub open spec fn raw_canonical(set: PunctSetView<Seq<TokenView>>, mark: char) -> bool {
    parts_canonical(set.vals, set.delim, mark)
}

/// A canonical set of raw stretches, written out and read back, is the
/// same set.
pub proof fn lemma_raw_round_trip(set: PunctSetView<Seq<TokenView>>, mark: char)
    requires
        raw_canonical(set, mark),
    ensures
        raw_set(join(set.vals, set.delim), mark) == Ok::<_, ParseErrorView>(set),
{
    lemma_punct_set_join(
        set.vals,
        set,
        mark,
        Construct::RawTokens,
        |c: Seq<TokenView>| Some(c),
    );
}

/// The stretches of a joined set are its parts, and its separator is the
/// one it was joined with, when the parts can be told apart.
proof fn lemma_stretches_join(parts: Seq<Seq<TokenView>>, delim: Option<TokenView>, mark: char)
    requires
        parts_canonical(parts, delim, mark),
    ensures
        stretches(join(parts, delim), mark) == parts,
        observed_delim(join(parts, delim), mark) == delim,
        unwrap_stream(join(parts, delim), Delimiter::Parenthesis) == join(parts, delim),
{
    lemma_join_len(parts, delim);
    lemma_elements_join(
        parts,
        parts,
        delim,
        mark,
        Construct::RawTokens,
        |c: Seq<TokenView>| Some(c),
    );
}

/// A set fits its own written form, when each value fits its part and the
/// parts can be told apart.
proof fn lemma_set_fits_join<V>(
    parts: Seq<Seq<TokenView>>,
    set: PunctSetView<V>,
    mark: char,
    fits: spec_fn(Seq<TokenView>, V) -> bool,
)
    requires
        parts.len() == set.vals.len(),
        parts_canonical(parts, set.delim, mark),
        forall|i: int| 0 <= i < parts.len() ==> fits(#[trigger] parts[i], set.vals[i]),
    ensures
        set_fits(join(parts, set.delim), mark, fits, set),
{
    lemma_stretches_join(parts, set.delim, mark);
}

/// A stream that starts with the identifier `word`.
pub open spec fn starts_with_word(stream: Seq<TokenView>, word: Seq<char>) -> bool {
    stream.len() > 0 && stream[0].is_word(word)
}

/// A stream whose second and third tokens are a colon and an identifier,
/// which is how a parameter with a name starts.
pub open spec fn looks_named(stream: Seq<TokenView>) -> bool {
    stream.len() > 2 && stream[1].is_punct(':') && stream[2].is_ident()
}

/// A parameter is in canonical form when its written form is read part by
/// part as it was written, once the grammars give the lengths of its type
/// and of its default value:
/// - where a flag is not set, what stands in its place is not its word;
/// - a name is followed by a type that starts with an identifier, and with
///   no name the rest does not look as if it had one;
/// - the type is not empty;
/// - the tuple arguments are a canonical set, and without them the default
///   value does not start with a group in parentheses;
/// - the default value follows the marker `=` and is not empty.
#[verifier::opaque]
pub open spec fn param_canonical(param: ParamView) -> bool {
    &&& !param.publicity ==> !starts_with_word(mut_onwards(param), "pub"@)
    &&& !param.mutability ==> !starts_with_word(name_onwards(param), "mut"@)
    &&& match param.name {
        Some(_) => param.ty.len() > 0 && param.ty[0].is_ident(),
        None => !looks_named(type_onwards(param)),
    }
    &&& param.ty.len() > 0
    &&& match param.tuple_args {
        Some(set) => raw_canonical(set, ','),
        None => !(default_part(param).len() > 1 && default_part(param)[1].is_group(
            Delimiter::Parenthesis,
        )),
    }
    &&& match param.default_val {
        Some((marker, value)) => marker.is_punct('=') && value.len() > 0,
        None => true,
    }
}

/// The head of a canonical parameter's written form is read as its flags
/// and its name, and leaves the written form from the type onwards.
#[verifier::rlimit(40)]
proof fn lemma_param_head(param: ParamView)
    requires
        param_canonical(param),
    ensures
        param_head(param_tokens(param)) matches Ok(head) && head.publicity == param.publicity
            && head.mutability == param.mutability && head.name == param.name && head.len
            + type_onwards(param).len() == param_tokens(param).len() && param_tokens(param).skip(
            head.len as int,
        ) == type_onwards(param),
{
    reveal(param_canonical);
    let stream = param_tokens(param);
    let a: int = if param.publicity {
        1
    } else {
        0
    };
    let b: int = if param.mutability {
        a + 1
    } else {
        a
    };
    assert(stream.skip(a) =~= mut_onwards(param));
    assert(stream.skip(b) =~= name_onwards(param));
    if param.publicity {
        assert(stream[0] == TokenView::Ident("pub"@));
    } else {
        assert(stream =~= mut_onwards(param));
    }
    if param.mutability {
        assert(stream[a] == TokenView::Ident("mut"@));
    } else {
        if stream.len() > a {
            assert(stream[a] == name_onwards(param)[0]);
        }
    }
    let tail = name_onwards(param);
    if stream.len() > b {
        assert(stream[b] == tail[0]);
    }
    if stream.len() > b + 1 {
        assert(stream[b + 1] == tail[1]);
    }
    if stream.len() > b + 2 {
        assert(stream[b + 2] == tail[2]);
    }
    assert(stream.len() == b + tail.len());
    match param.name {
        Some(name) => {
            assert(tail[0] == TokenView::Ident(name));
            assert(tail[1] == TokenView::Punct(':', Spacing::Alone));
            assert(tail[2] == param.ty[0]);
            assert(stream.skip(b + 2) =~= type_onwards(param));
        },
        None => {
            assert(tail =~= type_onwards(param));
        },
    }
}

/// The tuple arguments of a canonical parameter's written form are read as
/// they were written.
#[verifier::rlimit(40)]
proof fn lemma_param_args(param: ParamView)
    requires
        param_canonical(param),
    ensures
        param_args(args_part(param) + default_part(param)) == Ok::<_, ParseErrorView>(
            (param.tuple_args, args_part(param).len()),
        ),
{
    reveal(param_canonical);
    let stream = args_part(param) + default_part(param);
    match param.tuple_args {
        Some(set) => {
            assert(stream[0] == TokenView::Group(
                Delimiter::Parenthesis,
                join(set.vals, set.delim),
            ));
            if stream.len() > 1 {
                assert(stream[1] == default_part(param)[0]);
                assert(stream[1].is_punct('='));
            }
            assert(args_offset(stream) == Some(0nat));
            lemma_raw_round_trip(set, ',');
        },
        None => {
            assert(stream =~= default_part(param));
            if stream.len() > 0 {
                assert(stream[0].is_punct('='));
            }
            assert(args_offset(stream) is None);
        },
    }
}

/// The default value of a canonical parameter's written form is read as it
/// was written, where the expression grammar gives its length.
proof fn lemma_param_default(param: ParamView)
    requires
        param_canonical(param),
    ensures
        param_default(default_part(param), default_len_of(param)) == Ok::<_, ParseErrorView>(
            (param.default_val, default_part(param).len()),
        ),
{
    reveal(param_canonical);
    let stream = default_part(param);
    match param.default_val {
        Some((marker, value)) => {
            assert(stream[0] == marker);
            assert(stream.skip(1) =~= value);
            assert(value.take(value.len() as int) =~= value);
        },
        None => {},
    }
}

/// The type of a canonical parameter's written form is read as it was
/// written, and leaves the tuple arguments and the default value.
proof fn lemma_param_type(param: ParamView)
    requires
        param_canonical(param),
    ensures
        param_type(type_onwards(param), Some(param.ty.len())) == Ok::<nat, ParseErrorView>(
            param.ty.len(),
        ),
        type_onwards(param).take(param.ty.len() as int) == param.ty,
        type_onwards(param).skip(param.ty.len() as int) == args_part(param) + default_part(param),
        (args_part(param) + default_part(param)).skip(args_part(param).len() as int)
            == default_part(param),
{
    reveal(param_canonical);
    let n = param.ty.len() as int;
    assert(type_onwards(param).take(n) =~= param.ty);
    assert(type_onwards(param).skip(n) =~= args_part(param) + default_part(param));
    assert((args_part(param) + default_part(param)).skip(args_part(param).len() as int)
        =~= default_part(param));
}

/// A canonical parameter is a reading of its own written form, from the
/// first token to the last: written out and read back, with the grammars
/// giving the lengths of its type and of its default value, it is the same
/// parameter.
pub proof fn lemma_param_round_trip(param: ParamView)
    requires
        param_canonical(param),
    ensures
        param_reads(param_tokens(param), param, param_tokens(param).len()),
        param_fits(param_tokens(param), param),
{
    let stream = param_tokens(param);
    lemma_param_head(param);
    lemma_param_type(param);
    lemma_param_args(param);
    lemma_param_default(param);
    lemma_parse_param_parts(stream, Some(param.ty.len()), default_len_of(param));
}

/// A list of parameters is in canonical form when each parameter is, and
/// their written forms can be told apart again once they are joined by
/// commas.
pub open spec fn params_canonical(set: PunctSetView<ParamView>) -> bool {
    &&& parts_canonical(param_parts(set.vals), set.delim, ',')
    &&& forall|i: int| 0 <= i < set.vals.len() ==> param_canonical(#[trigger] set.vals[i])
}

/// A canonical list of parameters fits its own written form: written out
/// and read back, with the grammars giving the lengths that its parameters
/// hold, it is the same list.
pub proof fn lemma_params_round_trip(set: PunctSetView<ParamView>)
    requires
        params_canonical(set),
    ensures
        set_fits(join(param_parts(set.vals), set.delim), ',', param_fitting(), set),
{
    let parts = param_parts(set.vals);
    assert forall|i: int| 0 <= i < parts.len() implies param_fitting()(
        #[trigger] parts[i],
        set.vals[i],
    ) by {
        lemma_param_round_trip(set.vals[i]);
    }
    lemma_set_fits_join(parts, set, ',', param_fitting());
}

/// No token of `stream` is a group in braces.
pub open spec fn brace_free(stream: Seq<TokenView>) -> bool {
    forall|i: int| 0 <= i < stream.len() ==> !(#[trigger] stream[i]).is_group(Delimiter::Brace)
}

/// A declaration is in canonical form when its written form is read part
/// by part as it was written:
/// - without a name and without parameters it has no trails, for its type
///   and the colon of the trails would be read as a name;
/// - its parameters are a canonical list;
/// - its trails are themselves canonical, and their written forms hold no
///   group in braces and can be told apart again once they are joined by
///   `+`.
pub open spec fn declaration_canonical(declaration: DeclarationView) -> bool
    decreases declaration,
{
    &&& declaration.name is None && declaration.params is None ==> declaration.trails is None
    &&& match declaration.params {
        Some(set) => params_canonical(set),
        None => true,
    }
    &&& match declaration.trails {
        Some(set) => {
            &&& parts_canonical(trail_parts(set.vals), set.delim, '+')
            &&& forall|i: int|
                0 <= i < set.vals.len() ==> brace_free(#[trigger] trail_parts(set.vals)[i])
            &&& forall|i: int|
                0 <= i < set.vals.len() ==> declaration_canonical(#[trigger] set.vals[i])
        },
        None => true,
    }
}

/// A joined set of parts without groups in braces, with a punctuation mark
/// as separator, holds no group in braces.
proof fn lemma_join_brace_free(parts: Seq<Seq<TokenView>>, delim: Option<TokenView>)
    requires
        forall|i: int| 0 <= i < parts.len() ==> brace_free(#[trigger] parts[i]),
        delim is Some ==> delim->0 is Punct,
    ensures
        brace_free(join(parts, delim)),
    decreases parts.len(),
{
    if parts.len() >= 2 {
        let front = parts.drop_last();
        assert forall|i: int| 0 <= i < front.len() implies brace_free(#[trigger] front[i]) by {
            assert(front[i] == parts[i]);
        }
        lemma_join_brace_free(front, delim);
        let head = join(front, delim) + separator(delim);
        let last = parts.last();
        assert(brace_free(last));
        let whole = head + last;
        assert forall|j: int| 0 <= j < whole.len() implies !(#[trigger] whole[j]).is_group(
            Delimiter::Brace,
        ) by {
            if j < join(front, delim).len() {
                assert(whole[j] == join(front, delim)[j]);
            } else if j < head.len() {
                assert(whole[j] == delim->0);
            } else {
                assert(whole[j] == last[j - head.len()]);
            }
        }
    } else if parts.len() == 1 {
        assert(brace_free(parts[0]));
    }
}

/// A stream without groups in braces, followed by nothing or by a group
/// in braces, has its first such group where the second part starts.
proof fn lemma_body_gap(head: Seq<TokenView>, body: Seq<TokenView>)
    requires
        brace_free(head),
        body.len() > 0 ==> body[0].is_group(Delimiter::Brace),
    ensures
        body_gap(head + body) == head.len(),
{
    let stream = head + body;
    assert forall|j: int| 0 <= j < head.len() implies !TokenKind::Group(Delimiter::Brace).fits(
        #[trigger] stream[j],
    ) by {
        assert(stream[j] == head[j]);
    }
    if body.len() > 0 {
        assert(stream[head.len() as int] == body[0]);
    }
    lemma_first_where_is(
        stream,
        |t: TokenView| TokenKind::Group(Delimiter::Brace).fits(t),
        head.len() as int,
    );
}

/// The written form of a declaration starts with an identifier.
proof fn lemma_declaration_starts_with_ident(declaration: DeclarationView)
    ensures
        declaration_tokens(declaration).len() > 0,
        declaration_tokens(declaration)[0].is_ident(),
{
    lemma_declaration_tokens(declaration);
    let stream = declaration_tokens(declaration);
    match declaration.name {
        Some(name) => {
            assert(stream[0] == TokenView::Ident(name));
        },
        None => {
            assert(name_part(declaration.name) =~= Seq::<TokenView>::empty());
            assert(stream[0] == TokenView::Ident(declaration.ty));
        },
    }
}

/// The head of a canonical declaration's written form is read as its name
/// and type, and leaves the written form from the parameters onwards.
#[verifier::rlimit(40)]
proof fn lemma_declaration_head(declaration: DeclarationView)
    requires
        declaration_canonical(declaration),
        declaration.trails is Some ==> join(
            trail_parts(declaration.trails->0.vals),
            declaration.trails->0.delim,
        ).len() > 0,
    ensures
        declaration_head(declaration_tokens(declaration)) matches Ok(head) && head.name
            == declaration.name && head.ty == declaration.ty && head.len + params_onwards(
            declaration,
        ).len() == declaration_tokens(declaration).len() && declaration_tokens(declaration).skip(
            head.len as int,
        ) == params_onwards(declaration),
{
    lemma_declaration_tokens(declaration);
    let stream = declaration_tokens(declaration);
    let onwards = params_onwards(declaration);
    match declaration.name {
        Some(name) => {
            assert(stream[0] == TokenView::Ident(name));
            assert(stream[1] == TokenView::Punct(':', Spacing::Alone));
            assert(stream[2] == TokenView::Ident(declaration.ty));
            assert(stream.skip(3) =~= onwards);
        },
        None => {
            assert(name_part(declaration.name) =~= Seq::<TokenView>::empty());
            assert(stream =~= seq![TokenView::Ident(declaration.ty)] + onwards);
            assert(stream[0] == TokenView::Ident(declaration.ty));
            if stream.len() >= 2 {
                assert(stream[1] == onwards[0]);
                match declaration.params {
                    Some(set) => {
                        assert(onwards[0] == params_part(declaration.params)[0]);
                    },
                    None => {
                        assert(declaration.trails is None);
                        assert(params_part(declaration.params) =~= Seq::<TokenView>::empty());
                        assert(trails_part(declaration) =~= Seq::<TokenView>::empty());
                        assert(onwards =~= body_part(declaration.body));
                        assert(onwards[0] is Group);
                    },
                }
                assert(!stream[1].is_punct(':'));
            }
            assert(stream.skip(1) =~= onwards);
        },
    }
}

/// The parameters of a canonical declaration's written form are read as
/// they were written, and leave the trails and the body.
#[verifier::rlimit(40)]
proof fn lemma_declaration_params(declaration: DeclarationView)
    requires
        declaration_canonical(declaration),
        declaration.trails is Some ==> join(
            trail_parts(declaration.trails->0.vals),
            declaration.trails->0.delim,
        ).len() > 0,
    ensures
        params_read(params_onwards(declaration), declaration.params),
        params_span(params_onwards(declaration)) == params_part(declaration.params).len(),
        params_onwards(declaration).skip(params_part(declaration.params).len() as int)
            == trails_part(declaration) + body_part(declaration.body),
{
    let stream = params_onwards(declaration);
    let tail = trails_part(declaration) + body_part(declaration.body);
    match declaration.params {
        Some(set) => {
            assert(stream[0] == TokenView::Group(
                Delimiter::Parenthesis,
                join(param_parts(set.vals), set.delim),
            ));
            if stream.len() > 1 {
                assert(stream[1] == tail[0]);
                if declaration.trails is Some {
                    assert(tail[0] == TokenView::Punct(':', Spacing::Alone));
                } else {
                    assert(trails_part(declaration) =~= Seq::<TokenView>::empty());
                    assert(tail[0] == body_part(declaration.body)[0]);
                }
                assert(!stream[1].is_group(Delimiter::Parenthesis));
            }
            assert(args_offset(stream) == Some(0nat));
            lemma_params_round_trip(set);
            assert(stream.skip(1) =~= tail);
        },
        None => {
            assert(stream =~= tail);
            match declaration.trails {
                Some(set) => {
                    let joined = join(trail_parts(set.vals), set.delim);
                    assert(tail[0] == TokenView::Punct(':', Spacing::Alone));
                    assert(tail[1] == joined[0]);
                    assert(!joined[0].is_group(Delimiter::Parenthesis));
                },
                None => {
                    assert(trails_part(declaration) =~= Seq::<TokenView>::empty());
                    assert(tail =~= body_part(declaration.body));
                    if tail.len() > 0 {
                        assert(tail[0].is_group(Delimiter::Brace));
                    }
                },
            }
            assert(args_offset(stream) is None);
            assert(stream.skip(0) =~= tail);
        },
    }
}

/// The body of a declaration's written form is read as it was written.
proof fn lemma_declaration_body(body: Option<Seq<TokenView>>)
    ensures
        declaration_body(body_part(body)) == (body, body_part(body).len()),
{
}

/// The trails of a canonical declaration's written form are read as they
/// were written, once each of them is known to fit its own written form,
/// and leave the body.
#[verifier::rlimit(40)]
proof fn lemma_declaration_trails(declaration: DeclarationView)
    requires
        declaration_canonical(declaration),
        declaration.trails is Some ==> forall|i: int|
            0 <= i < declaration.trails->0.vals.len() ==> trail_fits(
                #[trigger] trail_parts(declaration.trails->0.vals)[i],
                declaration.trails->0.vals[i],
            ),
    ensures
        has_trails(trails_part(declaration) + body_part(declaration.body))
            == declaration.trails is Some,
        declaration.trails matches Some(set) ==> trails_fit(
            trails_segment(trails_part(declaration) + body_part(declaration.body)),
            set,
        ),
        trails_span(trails_part(declaration) + body_part(declaration.body)) == trails_part(
            declaration,
        ).len(),
        (trails_part(declaration) + body_part(declaration.body)).skip(
            trails_part(declaration).len() as int,
        ) == body_part(declaration.body),
        declaration.trails is Some ==> join(
            trail_parts(declaration.trails->0.vals),
            declaration.trails->0.delim,
        ).len() > 0,
{
    let body = body_part(declaration.body);
    let tail = trails_part(declaration) + body;
    let t = trails_part(declaration).len();
    match declaration.trails {
        Some(set) => {
            let parts = trail_parts(set.vals);
            let joined = join(parts, set.delim);
            lemma_trail_parts(set.vals);
            lemma_join_len(parts, set.delim);
            lemma_join_brace_free(parts, set.delim);
            lemma_body_gap(joined, body);
            lemma_stretches_join(parts, set.delim, '+');
            assert(tail[0] == TokenView::Punct(':', Spacing::Alone));
            assert(tail.skip(1) =~= joined + body);
            assert((joined + body).take(joined.len() as int) =~= joined);
            assert(trails_segment(tail) == joined);
            assert(trails_fit(joined, set));
            assert(tail.skip(t as int) =~= body);
        },
        None => {
            assert(trails_part(declaration) =~= Seq::<TokenView>::empty());
            assert(tail =~= body);
            lemma_body_gap(Seq::empty(), body);
            assert(Seq::<TokenView>::empty() + body =~= body);
            assert(tail.skip(0) =~= body);
        },
    }
}

/// A canonical declaration is a reading of its own written form as it
/// stands, from the first token to the last.
pub proof fn lemma_flat_round_trip(declaration: DeclarationView)
    requires
        declaration_canonical(declaration),
    ensures
        reads_flat(declaration_tokens(declaration), declaration),
        flat_span(declaration_tokens(declaration)) == declaration_tokens(declaration).len(),
        trail_fits(declaration_tokens(declaration), declaration),
    decreases declaration,
{
    let stream = declaration_tokens(declaration);
    if declaration.trails is Some {
        let set = declaration.trails->0;
        let parts = trail_parts(set.vals);
        assert forall|i: int| 0 <= i < set.vals.len() implies trail_fits(
            #[trigger] parts[i],
            set.vals[i],
        ) by {
            lemma_trail_parts(set.vals);
            lemma_flat_round_trip(set.vals[i]);
        }
    }
    lemma_declaration_trails(declaration);
    lemma_declaration_head(declaration);
    lemma_declaration_params(declaration);
    lemma_declaration_body(declaration.body);
    lemma_declaration_starts_with_ident(declaration);
}

/// Writing a canonical declaration out and reading it back gives the
/// declaration again: every declaration `d` in canonical form is a reading
/// of [`declaration_tokens`]`(d)`, from the first token to the last. The
/// grammars of types and of expressions are outside this library, so a
/// reading is one in which they give the lengths that `d` holds.
pub proof fn lemma_declaration_round_trip(declaration: DeclarationView)
    requires
        declaration_canonical(declaration),
    ensures
        reads_declaration(declaration_tokens(declaration), declaration),
        declaration_span(declaration_tokens(declaration)) == declaration_tokens(
            declaration,
        ).len(),
{
    lemma_flat_round_trip(declaration);
    lemma_declaration_starts_with_ident(declaration);
}

/// A canonical list of trails fits its own written form.
pub proof fn lemma_trails_round_trip(set: PunctSetView<DeclarationView>)
    requires
        parts_canonical(trail_parts(set.vals), set.delim, '+'),
        forall|i: int| 0 <= i < set.vals.len() ==> declaration_canonical(#[trigger] set.vals[i]),
    ensures
        trails_fit(join(trail_parts(set.vals), set.delim), set),
{
    let parts = trail_parts(set.vals);
    lemma_trail_parts(set.vals);
    assert forall|i: int| 0 <= i < parts.len() implies trail_fits(
        #[trigger] parts[i],
        set.vals[i],
    ) by {
        lemma_flat_round_trip(set.vals[i]);
    }
    lemma_stretches_join(parts, set.delim, '+');
}

/// Reading, writing and reading again: for every stream that is read as a
/// declaration in canonical form, that declaration, written out, is read
/// as the same declaration.
pub proof fn lemma_read_write_read(stream: Seq<TokenView>, declaration: DeclarationView)
    requires
        reads_declaration(stream, declaration),
        declaration_canonical(declaration),
    ensures
        reads_declaration(declaration_tokens(declaration), declaration),
{
    lemma_declaration_round_trip(declaration);
}

/// A set that was read is never empty, keeps a separator exactly when it
/// was read from a stream that holds one, and keeps none but the mark.
pub proof fn lemma_read_set<V>(
    stream: Seq<TokenView>,
    mark: char,
    read: Seq<Option<V>>,
    expected: Construct,
)
    requires
        read.len() == stretches(stream, mark).len(),
        collected(stream, mark, read, expected) is Ok,
    ensures
        collected(stream, mark, read, expected)->Ok_0.vals.len() > 0,
        collected(stream, mark, read, expected)->Ok_0.delim matches Some(token)
            ==> token.is_punct(mark),
        collected(stream, mark, read, expected)->Ok_0.vals.len() >= 2 ==> collected(
            stream,
            mark,
            read,
            expected,
        )->Ok_0.delim is Some,
{
    lemma_stretches(stream, mark);
    crate::parse_utils::lemma_first_where(stream, |t: TokenView| TokenKind::Punct(mark).fits(t));
    let k = first_fit(stream, TokenKind::Punct(mark));
    if k >= stream.len() && !(stream.len() == 0 || lone_delim(stream, mark)) {
        assert(stretches(stream, mark).len() == 1);
    }
}

} // verus!
