//! A position in a token stream, with lookahead and speculative copies.

use crate::token::{clone_range, Token, TokenView};
use vstd::prelude::*;

verus! {

/// A position in a borrowed token stream. Reading moves the position and
/// never the stream; a fork is a second position over the same stream.
pub struct Cursor<'a> {
    tokens: &'a Vec<Token>,
    pos: usize,
}

impl<'a> Cursor<'a> {
    #[verifier::type_invariant]
    spec fn in_bounds(self) -> bool {
        self.pos <= self.tokens.len()
    }

    /// The whole stream the cursor runs over.
    pub closed spec fn stream(self) -> Seq<TokenView> {
        self.tokens.deep_view()
    }

    /// How many tokens have been read.
    pub closed spec fn position(self) -> nat {
        self.pos as nat
    }

    /// The tokens not read yet.
    pub open spec fn rest(self) -> Seq<TokenView> {
        self.stream().skip(self.position() as int)
    }

    /// A cursor at the start of `tokens`.
    pub fn new(tokens: &'a Vec<Token>) -> (cursor: Self)
        ensures
            cursor.stream() == tokens.deep_view(),
            cursor.position() == 0,
            cursor.rest() == tokens.deep_view(),
    {
        let cursor = Cursor { tokens, pos: 0 };
        assert(cursor.rest() =~= tokens.deep_view());
        cursor
    }

    /// The number of tokens read so far.
    pub fn offset(&self) -> (n: usize)
        ensures
            n == self.position(),
            n <= self.stream().len(),
    {
        proof {
            use_type_invariant(self);
        }
        self.pos
    }

    /// The number of tokens left.
    pub fn len(&self) -> (n: usize)
        ensures
            n == self.rest().len(),
            self.position() + n == self.stream().len(),
    {
        proof {
            use_type_invariant(self);
        }
        self.tokens.len() - self.pos
    }

    pub fn is_empty(&self) -> (b: bool)
        ensures
            b == (self.rest().len() == 0),
            self.position() <= self.stream().len(),
    {
        proof {
            use_type_invariant(self);
        }
        self.pos == self.tokens.len()
    }

    /// The token `n` places ahead, without reading it.
    pub fn peek(&self, n: usize) -> (token: Option<&'a Token>)
        ensures
            match token {
                Some(t) => n < self.rest().len() && t.deep_view() == self.rest()[n as int],
                None => n >= self.rest().len(),
            },
    {
        proof {
            use_type_invariant(self);
        }
        if n < self.tokens.len() - self.pos {
            Some(&self.tokens[self.pos + n])
        } else {
            None
        }
    }

    /// The token `n` places ahead, which must be there.
    pub fn at(&self, n: usize) -> (token: &'a Token)
        requires
            n < self.rest().len(),
        ensures
            token.deep_view() == self.rest()[n as int],
    {
        proof {
            use_type_invariant(self);
        }
        &self.tokens[self.pos + n]
    }

    /// Reads one token; `None`, and no move, at the end of the stream.
    pub fn next(&mut self) -> (token: Option<&'a Token>)
        ensures
            final(self).stream() == old(self).stream(),
            match token {
                Some(t) => old(self).rest().len() > 0 && t.deep_view() == old(self).rest()[0]
                    && final(self).position() == old(self).position() + 1 && final(self).rest()
                    == old(self).rest().skip(1),
                None => old(self).rest().len() == 0 && final(self).position() == old(self).position(),
            },
    {
        proof {
            use_type_invariant(&*self);
        }
        if self.pos < self.tokens.len() {
            let token = &self.tokens[self.pos];
            self.pos = self.pos + 1;
            assert(self.rest() =~= old(self).rest().skip(1));
            Some(token)
        } else {
            None
        }
    }

    /// A second cursor at the same place; moving either leaves the other.
    pub fn fork(&self) -> (copy: Self)
        ensures
            copy.stream() == self.stream(),
            copy.position() == self.position(),
            copy.rest() == self.rest(),
    {
        proof {
            use_type_invariant(self);
        }
        Cursor { tokens: self.tokens, pos: self.pos }
    }

    /// Takes over the place that `fork` has reached.
    pub fn commit(&mut self, fork: Cursor<'a>)
        ensures
            final(self).stream() == fork.stream(),
            final(self).position() == fork.position(),
            final(self).rest() == fork.rest(),
    {
        proof {
            use_type_invariant(&fork);
        }
        *self = fork;
    }

    /// Passes over `n` tokens.
    pub fn advance(&mut self, n: usize)
        requires
            n <= old(self).rest().len(),
        ensures
            final(self).stream() == old(self).stream(),
            final(self).position() == old(self).position() + n,
            final(self).rest() == old(self).rest().skip(n as int),
    {
        proof {
            use_type_invariant(&*self);
        }
        self.pos = self.pos + n;
        assert(self.rest() =~= old(self).rest().skip(n as int));
    }

    /// Reads `n` tokens and returns copies of them.
    pub fn take(&mut self, n: usize) -> (taken: Vec<Token>)
        requires
            n <= old(self).rest().len(),
        ensures
            final(self).stream() == old(self).stream(),
            final(self).position() == old(self).position() + n,
            final(self).rest() == old(self).rest().skip(n as int),
            taken.deep_view() == old(self).rest().take(n as int),
            taken.len() == n,
    {
        proof {
            use_type_invariant(&*self);
        }
        let taken = clone_range(self.tokens, self.pos, self.pos + n);
        assert(taken.deep_view() =~= self.rest().take(n as int));
        self.pos = self.pos + n;
        assert(self.rest() =~= old(self).rest().skip(n as int));
        taken
    }

    /// Copies of the tokens not read yet; the cursor does not move.
    pub fn snapshot(&self) -> (left: Vec<Token>)
        ensures
            left.deep_view() == self.rest(),
            left.len() == self.rest().len(),
    {
        proof {
            use_type_invariant(self);
        }
        let left = clone_range(self.tokens, self.pos, self.tokens.len());
        assert(left.deep_view() =~= self.rest());
        left
    }
}

} // verus!
