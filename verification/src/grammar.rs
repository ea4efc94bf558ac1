//! The two grammars that are taken as given: type expressions and value
//! expressions. Each is asked whether it takes a text; nothing is known of
//! its answer beforehand, and the same text may be answered differently at
//! another time or place.

use crate::cursor::Cursor;
use crate::text::stream_to_string;
use crate::token::{clone_range, Token};
use vstd::prelude::*;

verus! {

/// `syn::parse_str::<syn::Type>`: lexes `text` and parses all of it as a
/// type. Nothing is claimed of the answer.
#[verifier::external_body]
fn accepts_type(text: &str) -> bool {
    syn::parse_str::<syn::Type>(text).is_ok()
}

/// `syn::parse_str::<syn::Expr>`: lexes `text` and parses all of it as an
/// expression. Nothing is claimed of the answer.
#[verifier::external_body]
fn accepts_expr(text: &str) -> bool {
    syn::parse_str::<syn::Expr>(text).is_ok()
}

/// The length of the longest prefix, of at most `limit` items, that ends
/// on a yes: the place of the last yes among the first `limit` answers,
/// counted from one.
pub open spec fn last_yes(answers: Seq<bool>, limit: nat) -> Option<nat>
    decreases limit,
{
    if limit == 0 {
        None
    } else if answers[limit - 1] {
        Some(limit)
    } else {
        last_yes(answers, (limit - 1) as nat)
    }
}

/// [`last_yes`] is at a yes, and no yes comes after it.
pub proof fn lemma_last_yes(answers: Seq<bool>, limit: nat)
    requires
        limit <= answers.len(),
    ensures
        match last_yes(answers, limit) {
            Some(n) => 0 < n <= limit && answers[n - 1] && forall|m: int|
                n <= m < limit ==> !answers[m],
            None => forall|m: int| 0 <= m < limit ==> !answers[m],
        },
    decreases limit,
{
    if limit > 0 && !answers[limit - 1] {
        lemma_last_yes(answers, (limit - 1) as nat);
    }
}

/// Given the answer of a grammar on each prefix of a stream, the shortest
/// first, the length of the longest prefix that the grammar takes.
pub fn longest_accepted(answers: &Vec<bool>) -> (n: Option<usize>)
    ensures
        match n {
            Some(n) => last_yes(answers@, answers.len() as nat) == Some(n as nat),
            None => last_yes(answers@, answers.len() as nat) is None,
        },
{
    let mut n: usize = answers.len();
    while n > 0
        invariant
            n <= answers.len(),
            last_yes(answers@, answers.len() as nat) == last_yes(answers@, n as nat),
        decreases n,
    {
        if answers[n - 1] {
            return Some(n);
        }
        n -= 1;
    }
    None
}

/// One of the two given grammars.
#[derive(Clone, Copy, PartialEq, Eq, Structural, Debug)]
pub enum Grammar {
    Type,
    Expr,
}

impl Grammar {
    /// Asks this grammar whether it takes `tokens`, all of them, as one
    /// expression. The answer is the grammar's own.
    pub fn accepts(self, tokens: &Vec<Token>) -> bool {
        let text = stream_to_string(tokens);
        match self {
            Grammar::Type => accepts_type(text.as_str()),
            Grammar::Expr => accepts_expr(text.as_str()),
        }
    }

    /// Asks this grammar about every prefix of `tokens`, the shortest
    /// first: one answer for each.
    pub fn ask(self, tokens: &Vec<Token>) -> (answers: Vec<bool>)
        ensures
            answers.len() == tokens.len(),
    {
        let mut answers: Vec<bool> = Vec::new();
        let mut k: usize = 0;
        while k < tokens.len()
            invariant
                k <= tokens.len(),
                answers.len() == k,
            decreases tokens.len() - k,
        {
            let prefix = clone_range(tokens, 0, k + 1);
            answers.push(self.accepts(&prefix));
            k += 1;
        }
        answers
    }

    /// Reads the expression of this grammar at the cursor: the longest
    /// prefix of what is left that the grammar says it takes. What comes
    /// back is a prefix of at least one token, and the cursor has passed
    /// over it; or nothing comes back and the cursor stays.
    pub fn read(self, cursor: &mut Cursor) -> (taken: Option<Vec<Token>>)
        ensures
            final(cursor).stream() == old(cursor).stream(),
            match taken {
                Some(tokens) => 0 < tokens.len() <= old(cursor).rest().len() && tokens.deep_view()
                    == old(cursor).rest().take(tokens.len() as int) && final(cursor).position()
                    == old(cursor).position() + tokens.len() && final(cursor).rest() == old(cursor).rest().skip(tokens.len() as int),
                None => final(cursor).position() == old(cursor).position() && final(cursor).rest()
                    == old(cursor).rest(),
            },
    {
        let left = cursor.snapshot();
        let answers = self.ask(&left);
        proof {
            lemma_last_yes(answers@, answers@.len());
        }
        match longest_accepted(&answers) {
            Some(n) => Some(cursor.take(n)),
            None => None,
        }
    }
}

} // verus!
