pub mod keys;
pub mod token;

use vstd::prelude::*;

use self::token::{Token, TokenV};

verus! {

/// The tokens of a source text that are still to be read, front first.
pub struct Tokenizer {
    /// The pending tokens, in reverse order, so that the next one is last.
    pending: Vec<Token>,
}

impl View for Tokenizer {
    type V = Seq<TokenV>;

    closed spec fn view(&self) -> Seq<TokenV> {
        Seq::new(self.pending@.len(), |i: int| self.pending@[self.pending@.len() - 1 - i]@)
    }
}

pub open spec fn tokens_view(s: Seq<Token>) -> Seq<TokenV> {
    Seq::new(s.len(), |i: int| s[i]@)
}

impl Tokenizer {
    /// A tokenizer that hands out `tokens` in order.
    pub fn new(tokens: Vec<Token>) -> (r: Tokenizer)
        ensures
            r@ == tokens_view(tokens@),
    {
        let mut tokens = tokens;
        let ghost orig = tokens@;
        let mut pending: Vec<Token> = Vec::new();
        while tokens.len() > 0
            invariant
                tokens@.len() + pending@.len() == orig.len(),
                tokens@ == orig.take(tokens@.len() as int),
                forall|i: int|
                    0 <= i < pending@.len() ==> #[trigger] pending@[i] == orig[orig.len() - 1 - i],
            decreases tokens@.len(),
        {
            let t = tokens.pop().unwrap();
            pending.push(t);
            assert(tokens@ =~= orig.take(tokens@.len() as int));
        }
        let r = Tokenizer { pending };
        assert(r@ =~= tokens_view(orig));
        r
    }

    /// The next token, left in place.
    pub fn peek(&self) -> (r: Option<&Token>)
        ensures
            match r {
                Some(t) => self@.len() > 0 && t@ == self@[0],
                None => self@.len() == 0,
            },
    {
        if self.pending.len() == 0 {
            None
        } else {
            Some(&self.pending[self.pending.len() - 1])
        }
    }

    /// Takes the next token.
    pub fn next(&mut self) -> (r: Option<Token>)
        ensures
            match r {
                Some(t) => old(self)@.len() > 0 && t@ == old(self)@[0] && final(self)@ == old(
                    self,
                )@.drop_first(),
                None => old(self)@.len() == 0 && final(self)@ == old(self)@,
            },
    {
        let r = self.pending.pop();
        assert(self@ =~= old(self)@.drop_first() || r is None);
        r
    }

    /// Drops the next token.
    pub fn skip(&mut self)
        requires
            old(self)@.len() > 0,
        ensures
            final(self)@ == old(self)@.drop_first(),
    {
        let _ = self.next();
    }

    /// The number of tokens still to be read.
    pub fn remaining(&self) -> (r: usize)
        ensures
            r == self@.len(),
    {
        self.pending.len()
    }
}

} // verus!
