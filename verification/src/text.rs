//! Writing tokens out as text.

use crate::token::{close_mark, gap_after, open_mark, stream_text, token_text, Delimiter, Spacing, Token};
use vstd::prelude::*;

verus! {

/// `String::push`: appends the one character `ch` to `text`.
#[verifier::external_body]
pub(crate) fn push_char(text: &mut String, ch: char)
    ensures
        final(text)@ == old(text)@.push(ch),
{
    text.push(ch);
}

fn open_char(delimiter: Delimiter) -> (ch: char)
    ensures
        ch == open_mark(delimiter),
{
    match delimiter {
        Delimiter::Parenthesis => '(',
        Delimiter::Brace => '{',
        Delimiter::Bracket => '[',
    }
}

fn close_char(delimiter: Delimiter) -> (ch: char)
    ensures
        ch == close_mark(delimiter),
{
    match delimiter {
        Delimiter::Parenthesis => ')',
        Delimiter::Brace => '}',
        Delimiter::Bracket => ']',
    }
}

/// Appends the text of `token` to `out`.
pub fn write_token(token: &Token, out: &mut String)
    ensures
        final(out)@ == old(out)@ + token_text(token.deep_view()),
    decreases token, 0nat,
{
    match token {
        Token::Ident(name) => {
            out.append(name.as_str());
        },
        Token::Literal(text) => {
            out.append(text.as_str());
        },
        Token::Punct(ch, _) => {
            push_char(out, *ch);
            assert(old(out)@.push(*ch) =~= old(out)@ + seq![*ch]);
        },
        Token::Group(delimiter, inner) => {
            push_char(out, open_char(*delimiter));
            write_stream(inner, out);
            push_char(out, close_char(*delimiter));
            proof {
                crate::token::lemma_vec_view(*inner);
                assert(out@ =~= old(out)@ + (seq![open_mark(*delimiter)] + stream_text(
                    inner.deep_view(),
                ) + seq![close_mark(*delimiter)]));
            }
        },
    }
}

/// Appends the text of `tokens` to `out`.
pub fn write_stream(tokens: &Vec<Token>, out: &mut String)
    ensures
        final(out)@ == old(out)@ + stream_text(tokens.deep_view()),
    decreases tokens, 1nat,
{
    let ghost view = tokens.deep_view();
    let mut i: usize = 0;
    assert(old(out)@ + stream_text(view.take(0)) =~= old(out)@);
    while i < tokens.len()
        invariant
            i <= tokens.len(),
            view == tokens.deep_view(),
            out@ == old(out)@ + stream_text(view.take(i as int)),
        decreases tokens.len() - i,
    {
        if i > 0 {
            let glued = match &tokens[i - 1] {
                Token::Punct(_, Spacing::Joint) => true,
                _ => false,
            };
            if !glued {
                push_char(out, ' ');
            }
        }
        let ghost before = out@;
        write_token(&tokens[i], out);
        proof {
            let next = view.take(i + 1);
            assert(next.drop_last() =~= view.take(i as int));
            assert(next.last() == view[i as int]);
            if i > 0 {
                assert(next[next.len() - 2] == view[i - 1]);
                assert(before =~= old(out)@ + stream_text(view.take(i as int)) + gap_after(
                    view[i - 1],
                ));
            }
            assert(out@ =~= old(out)@ + stream_text(next));
        }
        i += 1;
    }
    assert(view.take(tokens.len() as int) =~= view);
}

/// The text of a stream: its tokens in order, each followed by one blank
/// unless it is a joint punctuation mark or the last.
pub fn stream_to_string(tokens: &Vec<Token>) -> (text: String)
    ensures
        text@ == stream_text(tokens.deep_view()),
{
    let mut text = String::new();
    write_stream(tokens, &mut text);
    assert(Seq::<char>::empty() + stream_text(tokens.deep_view()) =~= stream_text(
        tokens.deep_view(),
    ));
    text
}

/// The text of one token.
pub fn token_to_string(token: &Token) -> (text: String)
    ensures
        text@ == token_text(token.deep_view()),
{
    let mut text = String::new();
    write_token(token, &mut text);
    assert(Seq::<char>::empty() + token_text(token.deep_view()) =~= token_text(token.deep_view()));
    text
}

} // verus!
