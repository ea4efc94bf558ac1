//! Sets of elements parted by one punctuation mark, such as `a, b, c` or
//! `A + B`.

use crate::cursor::Cursor;
use crate::error::{failure, result_view, Construct, ErrorKind, ErrorKindView, ParseError, ParseErrorView};
use crate::parse_utils::{first_fit, lemma_first_where, parse_until, unwrap_input, unwrap_stream};
use crate::text::stream_to_string;
use crate::token::{clone_range, clone_tokens, stream_text, Delimiter, Token, TokenKind, TokenView};
use vstd::prelude::*;

verus! {

/// The elements of a punctuated stretch, in the order they were written,
/// and the separator that was seen between them, if one was.
#[derive(Debug, PartialEq, Eq)]
pub struct PunctSet<T> {
    pub vals: Vec<T>,
    pub delim: Option<Token>,
}

/// The mathematical value of a [`PunctSet`].
pub struct PunctSetView<V> {
    pub vals: Seq<V>,
    pub delim: Option<TokenView>,
}

impl<T: DeepView> DeepView for PunctSet<T> {
    type V = PunctSetView<T::V>;

    open spec fn deep_view(&self) -> PunctSetView<T::V> {
        PunctSetView { vals: self.vals.deep_view(), delim: self.delim.deep_view() }
    }
}

/// A stream that is one separator and nothing else.
pub open spec fn lone_delim(stream: Seq<TokenView>, mark: char) -> bool {
    stream.len() == 1 && stream[0].is_punct(mark)
}

/// The elements of `stream`, read from left to right. Each stretch up to
/// the next separator `mark`, or to the end, must be an element by
/// `element`; the separator after it is passed over. Reading ends at the end
/// of the stream, or before a separator that is the last token.
pub open spec fn elements<V>(
    stream: Seq<TokenView>,
    mark: char,
    expected: Construct,
    element: spec_fn(Seq<TokenView>) -> Option<V>,
) -> Result<Seq<V>, ParseErrorView>
    decreases stream.len(),
{
    if stream.len() == 0 || lone_delim(stream, mark) {
        Ok(Seq::empty())
    } else {
        let k = first_fit(stream, TokenKind::Punct(mark));
        let candidate = stream.take(k as int);
        match element(candidate) {
            None => Err(
                failure(
                    ErrorKindView::ElementParseFailed { expected, got: candidate },
                    stream.skip(k as int),
                    Construct::PunctSet,
                ),
            ),
            Some(value) => if k < stream.len() {
                prepend(seq![value], elements(stream.skip(k as int + 1), mark, expected, element))
            } else {
                Ok(seq![value])
            },
        }
    }
}

/// `later` with the elements `done` in front; an error stays as it is.
pub open spec fn prepend<V>(done: Seq<V>, later: Result<Seq<V>, ParseErrorView>) -> Result<
    Seq<V>,
    ParseErrorView,
> {
    match later {
        Ok(values) => Ok(done + values),
        Err(error) => Err(error),
    }
}

/// The separator of a set read from `stream`: the first token that is the
/// mark, if there is one.
pub open spec fn observed_delim(stream: Seq<TokenView>, mark: char) -> Option<TokenView> {
    let k = first_fit(stream, TokenKind::Punct(mark));
    if k < stream.len() {
        Some(stream[k as int])
    } else {
        None
    }
}

/// The set that `stream` holds where `element` reads each stretch: what
/// [`collected`] gives for the readings of all stretches. A stream that
/// starts with a group in parentheses is read inside that group.
pub open spec fn punct_set<V>(
    stream: Seq<TokenView>,
    mark: char,
    expected: Construct,
    element: spec_fn(Seq<TokenView>) -> Option<V>,
) -> Result<PunctSetView<V>, ParseErrorView> {
    let inner = unwrap_stream(stream, Delimiter::Parenthesis);
    let parts = stretches(inner, mark);
    collected(inner, mark, Seq::new(parts.len(), |i: int| element(parts[i])), expected)
}

/// The set of raw stretches that `stream` holds: every stretch is an
/// element as it stands.
pub open spec fn raw_set(stream: Seq<TokenView>, mark: char) -> Result<
    PunctSetView<Seq<TokenView>>,
    ParseErrorView,
> {
    punct_set(stream, mark, Construct::RawTokens, |c: Seq<TokenView>| Some(c))
}

/// The stretches of `stream` between its separators, from left to right;
/// a separator that is the last token ends the last stretch.
pub open spec fn stretches(stream: Seq<TokenView>, mark: char) -> Seq<Seq<TokenView>> {
    match elements(stream, mark, Construct::RawTokens, |c: Seq<TokenView>| Some(c)) {
        Ok(parts) => parts,
        Err(_) => Seq::empty(),
    }
}

/// A set whose elements are read by a reader outside this library's
/// control fits `stream` when it holds one value for each stretch, in
/// order, each value fits its stretch, and the separator is the one seen.
/// A stream that starts with a group in parentheses is read inside that
/// group.
pub open spec fn set_fits<V>(
    stream: Seq<TokenView>,
    mark: char,
    fits: spec_fn(Seq<TokenView>, V) -> bool,
    set: PunctSetView<V>,
) -> bool {
    let inner = unwrap_stream(stream, Delimiter::Parenthesis);
    let parts = stretches(inner, mark);
    &&& parts.len() > 0
    &&& set.vals.len() == parts.len()
    &&& set.delim == observed_delim(inner, mark)
    &&& forall|i: int| 0 <= i < parts.len() ==> fits(#[trigger] parts[i], set.vals[i])
}

/// What is left of `stream` when its stretch `i` has been read, the
/// separator after that stretch included.
pub open spec fn stretch_tail(stream: Seq<TokenView>, mark: char, i: nat) -> Seq<TokenView>
    decreases i,
{
    let k = first_fit(stream, TokenKind::Punct(mark));
    if i == 0 {
        stream.skip(k as int)
    } else if k < stream.len() {
        stretch_tail(stream.skip(k as int + 1), mark, (i - 1) as nat)
    } else {
        Seq::empty()
    }
}

/// What is left after a stretch of a stream is what is left after the
/// stretch before it in the stream that starts behind the first separator.
pub(crate) proof fn lemma_stretch_tail_step(
    before: Seq<TokenView>,
    after: Seq<TokenView>,
    mark: char,
    j: nat,
)
    requires
        after == if first_fit(before, TokenKind::Punct(mark)) < before.len() {
            before.skip(first_fit(before, TokenKind::Punct(mark)) as int).skip(1)
        } else {
            before.skip(first_fit(before, TokenKind::Punct(mark)) as int)
        },
    ensures
        stretch_tail(before, mark, j + 1) == stretch_tail(after, mark, j),
{
    let k = first_fit(before, TokenKind::Punct(mark));
    lemma_first_where(before, |t: TokenView| TokenKind::Punct(mark).fits(t));
    if k < before.len() {
        assert(before.skip(k as int).skip(1) =~= before.skip(k as int + 1));
    } else {
        assert(after.len() == 0);
        assert(first_fit(after, TokenKind::Punct(mark)) == 0);
        assert(after.skip(0) =~= Seq::<TokenView>::empty());
    }
}

/// Index of the first stretch that was not read; the number of readings
/// if all were.
pub open spec fn first_none<V>(read: Seq<Option<V>>) -> nat
    decreases read.len(),
{
    if read.len() == 0 || read[0] is None {
        0
    } else {
        1 + first_none(read.drop_first())
    }
}

/// [`first_none`] is the least index of a stretch that was not read.
pub proof fn lemma_first_none<V>(read: Seq<Option<V>>)
    ensures
        first_none(read) <= read.len(),
        forall|j: int| 0 <= j < first_none(read) ==> (#[trigger] read[j]) is Some,
        first_none(read) < read.len() ==> read[first_none(read) as int] is None,
    decreases read.len(),
{
    if read.len() > 0 && read[0] is Some {
        let tail = read.drop_first();
        lemma_first_none(tail);
        assert forall|j: int| 0 <= j < first_none(read) implies (#[trigger] read[j]) is Some by {
            if j > 0 {
                assert(read[j] == tail[j - 1]);
            }
        }
    }
}

/// An index with every reading before it there, that is itself without a
/// reading or the end, is [`first_none`].
pub proof fn lemma_first_none_is<V>(read: Seq<Option<V>>, i: int)
    requires
        0 <= i <= read.len(),
        forall|j: int| 0 <= j < i ==> (#[trigger] read[j]) is Some,
        i < read.len() ==> read[i] is None,
    ensures
        first_none(read) == i,
{
    lemma_first_none(read);
    let k = first_none(read) as int;
    if k < i {
        assert(read[k] is Some);
    }
}

/// The values of the readings, in order.
pub open spec fn values<V>(read: Seq<Option<V>>) -> Seq<V> {
    Seq::new(read.len(), |i: int| read[i]->0)
}

/// The set that is made of the stretches of `stream` and of the outcome
/// of reading each of them, `read`: a stream without stretches holds an
/// empty set, which is an error; the first stretch that was not read is an
/// error that holds that stretch and what was left of the stream when it
/// had been read; where every stretch was read, the set holds the values
/// in order, and the first separator of the stream.
pub open spec fn collected<V>(
    stream: Seq<TokenView>,
    mark: char,
    read: Seq<Option<V>>,
    expected: Construct,
) -> Result<PunctSetView<V>, ParseErrorView> {
    let parts = stretches(stream, mark);
    let i = first_none(read);
    if parts.len() == 0 {
        Err(failure(ErrorKindView::EmptySequence, stream, Construct::PunctSet))
    } else if i < read.len() {
        Err(
            failure(
                ErrorKindView::ElementParseFailed { expected, got: parts[i as int] },
                stretch_tail(stream, mark, i),
                Construct::PunctSet,
            ),
        )
    } else {
        Ok(PunctSetView { vals: values(read), delim: observed_delim(stream, mark) })
    }
}

/// `read` holds one outcome for each of `parts`, and each value in it
/// fits its stretch.
pub open spec fn reads_each<V>(
    parts: Seq<Seq<TokenView>>,
    read: Seq<Option<V>>,
    fits: spec_fn(Seq<TokenView>, V) -> bool,
) -> bool {
    &&& read.len() == parts.len()
    &&& forall|i: int|
        0 <= i < parts.len() ==> ((#[trigger] read[i]) matches Some(value) ==> fits(
            parts[i],
            value,
        ))
}

/// `outcome` is what reading the list in `stream` may give, where a
/// reader outside this library's control reads the stretches: it is what
/// [`collected`] gives for some outcome of reading each stretch in which
/// every value fits its stretch. A stream that starts with a group in
/// parentheses is read inside that group.
pub open spec fn list_outcome<V>(
    stream: Seq<TokenView>,
    mark: char,
    expected: Construct,
    fits: spec_fn(Seq<TokenView>, V) -> bool,
    outcome: Result<PunctSetView<V>, ParseErrorView>,
) -> bool {
    let inner = unwrap_stream(stream, Delimiter::Parenthesis);
    exists|read: Seq<Option<V>>|
        reads_each(stretches(inner, mark), read, fits) && #[trigger] collected(
            inner,
            mark,
            read,
            expected,
        ) == outcome
}

/// What [`collected`] gives is an outcome of reading the list, and where
/// it is a set, the set fits the stream.
pub proof fn lemma_collected<V>(
    stream: Seq<TokenView>,
    mark: char,
    read: Seq<Option<V>>,
    expected: Construct,
    fits: spec_fn(Seq<TokenView>, V) -> bool,
)
    requires
        reads_each(
            stretches(unwrap_stream(stream, Delimiter::Parenthesis), mark),
            read,
            fits,
        ),
    ensures
        list_outcome(
            stream,
            mark,
            expected,
            fits,
            collected(unwrap_stream(stream, Delimiter::Parenthesis), mark, read, expected),
        ),
        collected(unwrap_stream(stream, Delimiter::Parenthesis), mark, read, expected) matches Ok(
            set,
        ) ==> set_fits(stream, mark, fits, set),
{
    lemma_first_none(read);
}

/// Raw stretches are always read.
pub proof fn lemma_stretches(stream: Seq<TokenView>, mark: char)
    ensures
        elements(stream, mark, Construct::RawTokens, |c: Seq<TokenView>| Some(c)) == Ok::<
            _,
            ParseErrorView,
        >(stretches(stream, mark)),
    decreases stream.len(),
{
    if !(stream.len() == 0 || lone_delim(stream, mark)) {
        let k = first_fit(stream, TokenKind::Punct(mark));
        lemma_first_where(stream, |t: TokenView| TokenKind::Punct(mark).fits(t));
        if k < stream.len() {
            lemma_stretches(stream.skip(k as int + 1), mark);
        }
    }
}

/// The written form of a set: its parts in order, with the separator
/// between each two and none after the last.
pub open spec fn join(parts: Seq<Seq<TokenView>>, delim: Option<TokenView>) -> Seq<TokenView>
    decreases parts.len(),
{
    if parts.len() == 0 {
        Seq::empty()
    } else if parts.len() == 1 {
        parts[0]
    } else {
        join(parts.drop_last(), delim) + separator(delim) + parts.last()
    }
}

/// The separator as a stream: one token, or nothing where none was seen.
pub open spec fn separator(delim: Option<TokenView>) -> Seq<TokenView> {
    match delim {
        Some(token) => seq![token],
        None => Seq::empty(),
    }
}

/// One step of [`elements`]: with the stretch at the start of `before` read
/// as `value`, the elements of `before` are `value` and then those of what
/// follows the separator.
pub(crate) proof fn lemma_elements_step<V>(
    before: Seq<TokenView>,
    after: Seq<TokenView>,
    mark: char,
    expected: Construct,
    element: spec_fn(Seq<TokenView>) -> Option<V>,
    done: Seq<V>,
    value: V,
)
    requires
        !(before.len() == 0 || lone_delim(before, mark)),
        element(before.take(first_fit(before, TokenKind::Punct(mark)) as int)) == Some(value),
        after == if first_fit(before, TokenKind::Punct(mark)) < before.len() {
            before.skip(first_fit(before, TokenKind::Punct(mark)) as int).skip(1)
        } else {
            before.skip(first_fit(before, TokenKind::Punct(mark)) as int)
        },
    ensures
        prepend(done, elements(before, mark, expected, element)) == prepend(
            done.push(value),
            elements(after, mark, expected, element),
        ),
{
    let k = first_fit(before, TokenKind::Punct(mark));
    lemma_first_where(before, |t: TokenView| TokenKind::Punct(mark).fits(t));
    if k < before.len() {
        assert(before.skip(k as int).skip(1) =~= before.skip(k as int + 1));
        match elements(after, mark, expected, element) {
            Ok(values) => {
                assert(done + (seq![value] + values) =~= done.push(value) + values);
            },
            Err(_) => {},
        }
    } else {
        assert(after.len() == 0);
        assert(done + seq![value] =~= done.push(value) + Seq::<V>::empty());
    }
}

/// Reads the next stretch of a punctuated stream: the tokens up to the next
/// separator or the end. There is none at the end of the stream, nor where
/// one separator is all that is left.
pub fn next_candidate(cursor: &mut Cursor, mark: char) -> (candidate: Option<Vec<Token>>)
    ensures
        final(cursor).stream() == old(cursor).stream(),
        match candidate {
            None => (old(cursor).rest().len() == 0 || lone_delim(old(cursor).rest(), mark))
                && final(cursor).position() == old(cursor).position(),
            Some(tokens) => {
                let k = first_fit(old(cursor).rest(), TokenKind::Punct(mark));
                &&& !(old(cursor).rest().len() == 0 || lone_delim(old(cursor).rest(), mark))
                &&& k <= old(cursor).rest().len()
                &&& tokens.deep_view() == old(cursor).rest().take(k as int)
                &&& final(cursor).position() == old(cursor).position() + k
                &&& final(cursor).rest() == old(cursor).rest().skip(k as int)
                &&& k < old(cursor).rest().len() ==> old(cursor).rest()[k as int].is_punct(mark)
            },
        },
{
    let ghost rest = cursor.rest();
    match cursor.peek(0) {
        None => {
            return None;
        },
        Some(first) => {
            if first.is_punct(mark) && cursor.peek(1).is_none() {
                return None;
            }
        },
    }
    let taken = parse_until(cursor, TokenKind::Punct(mark));
    proof {
        let k = first_fit(rest, TokenKind::Punct(mark));
        lemma_first_where(rest, |t: TokenView| TokenKind::Punct(mark).fits(t));
    }
    Some(taken)
}

/// Passes over the separator that follows a stretch, and keeps a copy of it
/// in `delim` if none is kept yet. At the end of the stream nothing happens.
pub fn skip_delim(cursor: &mut Cursor, delim: &mut Option<Token>)
    ensures
        final(cursor).stream() == old(cursor).stream(),
        old(cursor).rest().len() == 0 ==> final(cursor).position() == old(cursor).position()
            && *final(delim) == *old(delim),
        old(cursor).rest().len() > 0 ==> {
            &&& final(cursor).position() == old(cursor).position() + 1
            &&& final(cursor).rest() == old(cursor).rest().skip(1)
            &&& final(delim).deep_view() == if *old(delim) is None {
                Some(old(cursor).rest()[0])
            } else {
                old(delim).deep_view()
            }
        },
{
    let ghost rest = cursor.rest();
    match cursor.next() {
        None => {},
        Some(token) => {
            if delim.is_none() {
                *delim = Some(token.clone());
            }
        },
    }
}

/// The stretches of `tokens` between its separators `mark`, and for each
/// the number of tokens up to its end.
fn scan(tokens: &Vec<Token>, mark: char) -> (found: (Vec<Vec<Token>>, Vec<usize>))
    ensures
        found.0.deep_view() == stretches(tokens.deep_view(), mark),
        found.1.len() == found.0.len(),
        forall|i: int|
            0 <= i < found.1.len() ==> (#[trigger] found.1@[i]) <= tokens.len()
                && tokens.deep_view().skip(found.1@[i] as int) == stretch_tail(
                tokens.deep_view(),
                mark,
                i as nat,
            ),
{
    let ghost stream = tokens.deep_view();
    let ghost raw = |c: Seq<TokenView>| Some(c);
    let mut cursor = Cursor::new(tokens);
    let mut parts: Vec<Vec<Token>> = Vec::new();
    let mut ends: Vec<usize> = Vec::new();
    let mut unused: Option<Token> = None;
    proof {
        lemma_stretches(stream, mark);
        assert(parts.deep_view() =~= Seq::<Seq<TokenView>>::empty());
        assert(Seq::<Seq<TokenView>>::empty() + stretches(stream, mark) =~= stretches(
            stream,
            mark,
        ));
    }
    loop
        invariant
            cursor.stream() == stream,
            stream == tokens.deep_view(),
            raw == (|c: Seq<TokenView>| Some(c)),
            elements(stream, mark, Construct::RawTokens, raw) == prepend(
                parts.deep_view(),
                elements(cursor.rest(), mark, Construct::RawTokens, raw),
            ),
            elements(cursor.rest(), mark, Construct::RawTokens, raw) is Ok,
            ends.len() == parts.len(),
            forall|i: int|
                0 <= i < ends.len() ==> (#[trigger] ends@[i]) <= tokens.len() && stream.skip(
                    ends@[i] as int,
                ) == stretch_tail(stream, mark, i as nat),
            forall|j: nat|
                stretch_tail(stream, mark, parts.deep_view().len() + j) == #[trigger] stretch_tail(
                    cursor.rest(),
                    mark,
                    j,
                ),
        ensures
            stretches(stream, mark) == parts.deep_view(),
            ends.len() == parts.len(),
            forall|i: int|
                0 <= i < ends.len() ==> (#[trigger] ends@[i]) <= tokens.len() && stream.skip(
                    ends@[i] as int,
                ) == stretch_tail(stream, mark, i as nat),
        decreases cursor.rest().len(),
    {
        let ghost before = cursor.rest();
        let ghost done = parts.deep_view();
        match next_candidate(&mut cursor, mark) {
            None => {
                assert(done + Seq::<Seq<TokenView>>::empty() =~= done);
                proof {
                    lemma_stretches(stream, mark);
                }
                break ;
            },
            Some(candidate) => {
                let ghost stretch = candidate.deep_view();
                let end = cursor.offset();
                proof {
                    assert(stretch_tail(stream, mark, parts.deep_view().len() + 0) == stretch_tail(
                        before,
                        mark,
                        0,
                    ));
                }
                skip_delim(&mut cursor, &mut unused);
                proof {
                    lemma_elements_step(
                        before,
                        cursor.rest(),
                        mark,
                        Construct::RawTokens,
                        raw,
                        done,
                        stretch,
                    );
                    lemma_stretches(cursor.rest(), mark);
                    let after = cursor.rest();
                    let n = parts.deep_view().len();
                    assert forall|j: nat|
                        stretch_tail(stream, mark, n + 1 + j) == #[trigger] stretch_tail(
                            after,
                            mark,
                            j,
                        ) by {
                        lemma_stretch_tail_step(before, after, mark, j);
                        assert(stretch_tail(stream, mark, n + (j + 1)) == stretch_tail(
                            before,
                            mark,
                            j + 1,
                        ));
                    }
                }
                parts.push(candidate);
                ends.push(end);
                assert(parts.deep_view() =~= done.push(stretch));
            },
        }
    }
    (parts, ends)
}

/// The stretches of `tokens` between its separators `mark`, from left to
/// right.
pub fn split(tokens: &Vec<Token>, mark: char) -> (parts: Vec<Vec<Token>>)
    ensures
        parts.deep_view() == stretches(tokens.deep_view(), mark),
{
    scan(tokens, mark).0
}

/// The first separator `mark` of `tokens`, if there is one.
pub fn first_delim(tokens: &Vec<Token>, mark: char) -> (delim: Option<Token>)
    ensures
        delim.deep_view() == observed_delim(tokens.deep_view(), mark),
{
    let mut cursor = Cursor::new(tokens);
    parse_until(&mut cursor, TokenKind::Punct(mark));
    match cursor.peek(0) {
        Some(token) => Some(token.clone()),
        None => None,
    }
}

/// Makes a set of the stretches of `tokens` and of the outcome of reading
/// each of them: an error for a stream without stretches, an error for the
/// first stretch that was not read, and else the set of all values with
/// the first separator of the stream.
pub fn collect<T: DeepView>(
    tokens: &Vec<Token>,
    mark: char,
    read: Vec<Option<T>>,
    expected: Construct,
) -> (result: Result<PunctSet<T>, ParseError>)
    requires
        read.len() == stretches(tokens.deep_view(), mark).len(),
    ensures
        result_view(result) == collected(tokens.deep_view(), mark, read.deep_view(), expected),
{
    let ghost stream = tokens.deep_view();
    let ghost given = read.deep_view();
    let (parts, ends) = scan(tokens, mark);
    if parts.len() == 0 {
        return Err(
            ParseError::new(ErrorKind::EmptySequence, clone_tokens(tokens), Construct::PunctSet),
        );
    }
    let ghost orig = read@;
    let mut pending = read;
    let mut vals: Vec<T> = Vec::new();
    let total = pending.len();
    assert(pending@ =~= orig.skip(0));
    while pending.len() > 0
        invariant
            given == read.deep_view(),
            orig.len() == total,
            given.len() == total,
            forall|j: int| 0 <= j < total ==> (#[trigger] given[j]) == orig[j].deep_view(),
            parts.len() == total,
            ends.len() == total,
            parts.deep_view() == stretches(stream, mark),
            stream == tokens.deep_view(),
            vals.len() + pending.len() == total,
            pending@ == orig.skip(vals.len() as int),
            forall|j: int| 0 <= j < vals.len() ==> (#[trigger] orig[j]) == Some(vals@[j]),
            forall|i: int|
                0 <= i < ends.len() ==> (#[trigger] ends@[i]) <= tokens.len() && stream.skip(
                    ends@[i] as int,
                ) == stretch_tail(stream, mark, i as nat),
        decreases pending.len(),
    {
        let i = vals.len();
        let next = pending.remove(0);
        assert(next == orig[i as int]);
        assert(pending@ =~= orig.skip(i + 1));
        match next {
            Some(value) => {
                vals.push(value);
            },
            None => {
                proof {
                    assert forall|j: int| 0 <= j < i implies (#[trigger] given[j]) is Some by {
                        assert(orig[j] == Some(vals@[j]));
                    }
                    assert(given[i as int] is None);
                    lemma_first_none_is(given, i as int);
                }
                let got = clone_tokens(&parts[i]);
                let remaining = clone_range(tokens, ends[i], tokens.len());
                assert(remaining.deep_view() =~= stream.skip(ends@[i as int] as int));
                assert(got.deep_view() == parts.deep_view()[i as int]);
                assert(remaining.deep_view() == stretch_tail(stream, mark, i as nat));
                assert(first_none(given) == i && i < given.len());
                return Err(
                    ParseError::new(
                        ErrorKind::ElementParseFailed { expected, got },
                        remaining,
                        Construct::PunctSet,
                    ),
                );
            },
        }
    }
    proof {
        assert forall|j: int| 0 <= j < total implies (#[trigger] given[j]) is Some by {
            assert(orig[j] == Some(vals@[j]));
        }
        lemma_first_none_is(given, total as int);
        assert forall|j: int| 0 <= j < total implies vals.deep_view()[j] == #[trigger] values(
            given,
        )[j] by {
            assert(orig[j] == Some(vals@[j]));
            assert(given[j] == orig[j].deep_view());
        }
        assert(vals.deep_view() =~= values(given));
    }
    Ok(PunctSet { vals, delim: first_delim(tokens, mark) })
}

/// Writes a set out from the written forms of its elements: the parts in
/// order, with the separator between each two and none after the last.
pub fn write_joined(parts: &Vec<Vec<Token>>, delim: &Option<Token>) -> (tokens: Vec<Token>)
    ensures
        tokens.deep_view() == join(parts.deep_view(), delim.deep_view()),
{
    let ghost views = parts.deep_view();
    let ghost mark = delim.deep_view();
    let mut tokens: Vec<Token> = Vec::new();
    let mut i: usize = 0;
    assert(tokens.deep_view() =~= join(views.take(0), mark));
    while i < parts.len()
        invariant
            i <= parts.len(),
            views == parts.deep_view(),
            mark == delim.deep_view(),
            tokens.deep_view() == join(views.take(i as int), mark),
        decreases parts.len() - i,
    {
        let ghost before = tokens.deep_view();
        if i > 0 {
            match delim {
                Some(token) => {
                    tokens.push(token.clone());
                },
                None => {},
            }
        }
        assert(tokens.deep_view() =~= if i > 0 {
            before + separator(mark)
        } else {
            before
        });
        let ghost mid = tokens.deep_view();
        let mut part = clone_tokens(&parts[i]);
        tokens.append(&mut part);
        proof {
            assert(tokens.deep_view() =~= mid + views[i as int]);
            let next = views.take(i + 1);
            assert(next.drop_last() =~= views.take(i as int));
            assert(next.last() == views[i as int]);
        }
        i += 1;
    }
    assert(views.take(parts.len() as int) =~= views);
    tokens
}

impl PunctSet<Vec<Token>> {
    /// Reads a set of raw stretches parted by the punctuation mark `mark`.
    /// A stream that starts with a group in parentheses is read inside that
    /// group. The set must hold at least one stretch.
    pub fn parse(tokens: &Vec<Token>, mark: char) -> (result: Result<Self, ParseError>)
        ensures
            result_view(result) == raw_set(tokens.deep_view(), mark),
    {
        let inner = unwrap_input(tokens, Delimiter::Parenthesis);
        let parts = split(inner, mark);
        let ghost stretches = parts.deep_view();
        let mut read: Vec<Option<Vec<Token>>> = Vec::new();
        let mut i: usize = 0;
        while i < parts.len()
            invariant
                i <= parts.len(),
                read.len() == i,
                stretches == parts.deep_view(),
                forall|j: int| 0 <= j < i ==> (#[trigger] read@[j]).deep_view() == Some(stretches[j]),
            decreases parts.len() - i,
        {
            read.push(Some(clone_tokens(&parts[i])));
            i += 1;
        }
        assert(read.deep_view() =~= Seq::new(
            stretches.len(),
            |i: int| (|c: Seq<TokenView>| Some(c))(stretches[i]),
        ));
        collect(inner, mark, read, Construct::RawTokens)
    }

    /// Writes the set out: its stretches in order, with the separator
    /// between each two and none after the last.
    pub fn to_tokens(&self) -> (tokens: Vec<Token>)
        ensures
            tokens.deep_view() == join(self.deep_view().vals, self.deep_view().delim),
    {
        write_joined(&self.vals, &self.delim)
    }

    /// The set as text.
    pub fn display(&self) -> (text: String)
        ensures
            text@ == stream_text(join(self.deep_view().vals, self.deep_view().delim)),
    {
        let tokens = self.to_tokens();
        stream_to_string(&tokens)
    }
}

} // verus!
