//! An analysed text: a source string together with the tokens that cover it
//! exactly, in order.

use crate::token::{byte_len, source_of, token_views, Token, TokenView};
use vstd::prelude::*;
use vstd::string::StringExecFns;

verus! {

/// A source string and its tokens. The source slices of the tokens,
/// concatenated in order, are the source string.
#[derive(Debug, PartialEq, Eq)]
pub struct Text {
    source: String,
    tokens: Vec<Token>,
}

impl View for Text {
    type V = Seq<TokenView>;

    closed spec fn view(&self) -> Seq<TokenView> {
        token_views(self.tokens@)
    }
}

impl Clone for Text {
    fn clone(&self) -> (text: Text)
        ensures
            text@ == self@,
    {
        proof {
            use_type_invariant(self);
        }
        let mut tokens: Vec<Token> = Vec::new();
        let mut i: usize = 0;
        while i < self.tokens.len()
            invariant
                i <= self.tokens.len(),
                tokens@.len() == i,
                forall|j: int| 0 <= j < i ==> tokens@[j]@ == self.tokens@[j]@,
            decreases self.tokens.len() - i,
        {
            tokens.push(self.tokens[i].clone());
            i += 1;
        }
        assert(token_views(tokens@) =~= token_views(self.tokens@));
        Text { source: self.source.clone(), tokens }
    }
}

impl Text {
    #[verifier::type_invariant]
    spec fn covered(self) -> bool {
        self.source@ == source_of(token_views(self.tokens@), 0, self.tokens@.len() as int)
    }

    /// The source string that the tokens cover.
    pub open spec fn spec_source(self) -> Seq<char> {
        source_of(self@, 0, self@.len() as int)
    }

    /// Pairs a source string with its tokens. `None` when the tokens do not
    /// cover the source exactly.
    pub fn new(source: String, tokens: Vec<Token>) -> (text: Option<Text>)
        ensures
            text is Some <==> source@ == source_of(
                token_views(tokens@),
                0,
                tokens@.len() as int,
            ),
            text is Some ==> text->0@ == token_views(tokens@),
    {
        let mut built = String::new();
        let mut i: usize = 0;
        while i < tokens.len()
            invariant
                i <= tokens.len(),
                built@ == source_of(token_views(tokens@), 0, i as int),
            decreases tokens.len() - i,
        {
            built.append(tokens[i].word.as_str());
            i += 1;
        }
        if built == source {
            Some(Text { source, tokens })
        } else {
            None
        }
    }

    /// The source string.
    pub fn source(&self) -> (source: &str)
        ensures
            source@ == self.spec_source(),
    {
        proof {
            use_type_invariant(self);
        }
        self.source.as_str()
    }

    /// The tokens, in order. Their source slices fit, taken together, in the
    /// source string, whose length is a `usize`.
    pub fn tokens(&self) -> (tokens: &Vec<Token>)
        ensures
            token_views(tokens@) == self@,
            tokens@.len() == self@.len(),
            byte_len(self.spec_source()) <= usize::MAX,
    {
        // the bytes of the source are a slice, and the length of a slice is a `usize`
        let bytes = self.source.as_str().as_bytes();
        proof {
            use_type_invariant(self);
            assert(vstd::slice::spec_slice_len(bytes) == bytes@.len());
        }
        &self.tokens
    }
}

} // verus!
