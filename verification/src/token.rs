//! Tokens of an analysed text: slices of the source text, each classified as
//! a word or a separator and carrying the normalized form used for lookups.

use vstd::prelude::*;
use vstd::string::StringExecFns;
use vstd::utf8::encode_utf8;

verus! {

/// Whether a token counts as a word or only separates words.
#[derive(Clone, Copy, Debug, PartialEq, Eq)]
pub enum TokenKind {
    Word,
    Separator,
}

/// One token of an analysed text.
#[derive(Debug, PartialEq, Eq)]
pub struct Token {
    /// The slice of the source text that the token covers.
    pub word: String,
    /// The normalized text of the token, by which matchers look it up.
    pub text: String,
    pub kind: TokenKind,
}

/// The mathematical value of a token.
pub struct TokenView {
    pub word: Seq<char>,
    pub text: Seq<char>,
    pub kind: TokenKind,
}

impl View for Token {
    type V = TokenView;

    open spec fn view(&self) -> TokenView {
        TokenView { word: self.word@, text: self.text@, kind: self.kind }
    }
}

impl TokenView {
    pub open spec fn is_word(self) -> bool {
        self.kind == TokenKind::Word
    }

    /// The number of bytes of the source slice in UTF-8.
    pub open spec fn byte_len(self) -> nat {
        byte_len(self.word)
    }
}

/// The number of bytes that a text takes in UTF-8.
pub open spec fn byte_len(text: Seq<char>) -> nat {
    encode_utf8(text).len()
}

/// The views of a run of tokens.
pub open spec fn token_views(tokens: Seq<Token>) -> Seq<TokenView> {
    tokens.map_values(|token: Token| token@)
}

/// The source slices of `tokens[lo..hi]`, concatenated.
pub open spec fn source_of(tokens: Seq<TokenView>, lo: int, hi: int) -> Seq<char>
    decreases hi - lo,
{
    if lo >= hi {
        Seq::empty()
    } else {
        source_of(tokens, lo, hi - 1) + tokens[hi - 1].word
    }
}

/// The number of word tokens among `tokens[lo..hi]`.
pub open spec fn words_in(tokens: Seq<TokenView>, lo: int, hi: int) -> nat
    decreases hi - lo,
{
    if lo >= hi {
        0
    } else if tokens[hi - 1].is_word() {
        words_in(tokens, lo, hi - 1) + 1
    } else {
        words_in(tokens, lo, hi - 1)
    }
}

/// A run of tokens can be split anywhere: the two parts hold its words and
/// its source between them.
pub proof fn lemma_split_run(tokens: Seq<TokenView>, lo: int, mid: int, hi: int)
    requires
        lo <= mid <= hi,
    ensures
        words_in(tokens, lo, hi) == words_in(tokens, lo, mid) + words_in(tokens, mid, hi),
        source_of(tokens, lo, hi) == source_of(tokens, lo, mid) + source_of(tokens, mid, hi),
    decreases hi - mid,
{
    if mid < hi {
        lemma_split_run(tokens, lo, mid, hi - 1);
        assert(source_of(tokens, lo, hi) =~= source_of(tokens, lo, mid) + source_of(
            tokens,
            mid,
            hi,
        ));
    } else {
        assert(source_of(tokens, lo, hi) =~= source_of(tokens, lo, mid) + source_of(
            tokens,
            mid,
            hi,
        ));
    }
}

/// The UTF-8 encoding of a concatenation is the concatenation of the encodings.
pub proof fn lemma_encode_concat(a: Seq<char>, b: Seq<char>)
    ensures
        encode_utf8(a + b) == encode_utf8(a) + encode_utf8(b),
        byte_len(a + b) == byte_len(a) + byte_len(b),
    decreases a.len(),
{
    if a.len() == 0 {
        assert(a + b =~= b);
        assert(encode_utf8(a) + encode_utf8(b) =~= encode_utf8(b));
    } else {
        lemma_encode_concat(a.drop_first(), b);
        assert((a + b).drop_first() =~= a.drop_first() + b);
        assert(encode_utf8(a + b) =~= encode_utf8(a) + encode_utf8(b));
    }
}

/// The byte length of a run's source grows with the run.
pub proof fn lemma_source_bytes_monotone(tokens: Seq<TokenView>, lo: int, mid: int, hi: int)
    requires
        lo <= mid <= hi,
    ensures
        byte_len(source_of(tokens, lo, hi)) == byte_len(source_of(tokens, lo, mid)) + byte_len(
            source_of(tokens, mid, hi),
        ),
{
    lemma_split_run(tokens, lo, mid, hi);
    lemma_encode_concat(source_of(tokens, lo, mid), source_of(tokens, mid, hi));
}

impl Clone for Token {
    fn clone(&self) -> (token: Token)
        ensures
            token@ == self@,
    {
        Token { word: self.word.clone(), text: self.text.clone(), kind: self.kind }
    }
}

impl Token {
    /// A token over the source slice `word`, with normalized text `text`.
    pub fn new(word: &str, text: &str, kind: TokenKind) -> (token: Token)
        ensures
            token@ == (TokenView { word: word@, text: text@, kind }),
    {
        Token { word: String::from_str(word), text: String::from_str(text), kind }
    }

    /// True for a word, false for a separator.
    pub fn is_word(&self) -> (word: bool)
        ensures
            word == self@.is_word(),
    {
        match self.kind {
            TokenKind::Word => true,
            TokenKind::Separator => false,
        }
    }

    /// The length of the source slice in bytes.
    pub fn byte_len(&self) -> (len: usize)
        ensures
            len == self@.byte_len(),
    {
        self.word.as_str().as_bytes().len()
    }
}

} // verus!
