//! Matchers: for a token, how many leading bytes of its source slice match
//! the query, if any.

use crate::token::{Token, TokenView};
use vstd::prelude::*;
use vstd::string::StringExecFns;

verus! {

/// Answers, for one token, how many leading bytes of its source slice are
/// matched. `None` means that the token does not match.
pub trait Matcher {
    /// The answer of this matcher for a token.
    spec fn matched(&self, token: TokenView) -> Option<usize>;

    fn matches(&self, token: &Token) -> (matched: Option<usize>)
        ensures
            matched == self.matched(token@),
    ;
}

/// True when `matcher` answers, for every word among `tokens`, with no more
/// bytes than the source slice of that word has.
pub open spec fn answers_within_words<M: Matcher>(matcher: &M, tokens: Seq<TokenView>) -> bool {
    forall|i: int|
        0 <= i < tokens.len() && tokens[i].is_word() && (#[trigger] matcher.matched(
            tokens[i],
        )) is Some ==> matcher.matched(tokens[i])->0 <= tokens[i].byte_len()
}

/// True when `matcher` matches the token at `index`, which is a word.
pub open spec fn is_match<M: Matcher>(matcher: &M, tokens: Seq<TokenView>, index: int) -> bool {
    0 <= index < tokens.len() && tokens[index].is_word() && matcher.matched(tokens[index]) is Some
}

/// True when no word among `tokens[lo..hi]` is matched.
pub open spec fn no_match_in<M: Matcher>(
    matcher: &M,
    tokens: Seq<TokenView>,
    lo: int,
    hi: int,
) -> bool {
    forall|i: int| lo <= i < hi ==> !is_match(matcher, tokens, i)
}

/// The index of the first matched word at or after `from`, or the number of
/// tokens when there is none.
pub open spec fn first_match_from<M: Matcher>(
    matcher: &M,
    tokens: Seq<TokenView>,
    from: int,
) -> int
    decreases tokens.len() - from,
{
    if from >= tokens.len() {
        tokens.len() as int
    } else if from >= 0 && is_match(matcher, tokens, from) {
        from
    } else {
        first_match_from(matcher, tokens, from + 1)
    }
}

/// `first_match_from` is the least matched index at or after `from`.
pub proof fn lemma_first_match_from<M: Matcher>(matcher: &M, tokens: Seq<TokenView>, from: int)
    requires
        0 <= from,
    ensures
        from <= first_match_from(matcher, tokens, from) || tokens.len() <= from,
        first_match_from(matcher, tokens, from) <= tokens.len(),
        no_match_in(matcher, tokens, from, first_match_from(matcher, tokens, from)),
        first_match_from(matcher, tokens, from) < tokens.len() ==> is_match(
            matcher,
            tokens,
            first_match_from(matcher, tokens, from),
        ),
    decreases tokens.len() - from,
{
    if from < tokens.len() && !is_match(matcher, tokens, from) {
        lemma_first_match_from(matcher, tokens, from + 1);
    }
}

/// The mapping that a list of entries stands for: later entries replace
/// earlier ones with the same text.
pub open spec fn mapping_of(entries: Seq<(String, Option<usize>)>) -> Map<
    Seq<char>,
    Option<usize>,
>
    decreases entries.len(),
{
    if entries.len() == 0 {
        Map::empty()
    } else {
        mapping_of(entries.drop_last()).insert(entries.last().0@, entries.last().1)
    }
}

/// A matcher given by a table from normalized token text to its answer.
#[derive(Debug)]
pub struct TestMatcher {
    entries: Vec<(String, Option<usize>)>,
}

impl View for TestMatcher {
    type V = Map<Seq<char>, Option<usize>>;

    closed spec fn view(&self) -> Map<Seq<char>, Option<usize>> {
        mapping_of(self.entries@)
    }
}

impl TestMatcher {
    /// The matcher that matches nothing.
    pub fn new() -> (matcher: TestMatcher)
        ensures
            matcher@ == Map::<Seq<char>, Option<usize>>::empty(),
    {
        TestMatcher { entries: Vec::new() }
    }

    /// Sets the answer for the tokens whose normalized text is `text`.
    pub fn insert(&mut self, text: &str, matched: Option<usize>)
        ensures
            final(self)@ == old(self)@.insert(text@, matched),
    {
        self.entries.push((String::from_str(text), matched));
        assert(self.entries@.drop_last() =~= old(self).entries@);
    }
}

impl Matcher for TestMatcher {
    open spec fn matched(&self, token: TokenView) -> Option<usize> {
        if self@.contains_key(token.text) {
            self@[token.text]
        } else {
            None
        }
    }

    fn matches(&self, token: &Token) -> (matched: Option<usize>) {
        let mut i: usize = self.entries.len();
        assert(self.entries@.subrange(0, i as int) =~= self.entries@);
        while i > 0
            invariant
                i <= self.entries.len(),
                mapping_of(self.entries@).contains_key(token.text@) == mapping_of(
                    self.entries@.subrange(0, i as int),
                ).contains_key(token.text@),
                mapping_of(self.entries@).contains_key(token.text@) ==> mapping_of(
                    self.entries@,
                )[token.text@] == mapping_of(self.entries@.subrange(0, i as int))[token.text@],
            decreases i,
        {
            proof {
                let prefix = self.entries@.subrange(0, i as int);
                assert(prefix.drop_last() =~= self.entries@.subrange(0, i as int - 1));
                assert(prefix.last() == self.entries@[i as int - 1]);
            }
            i -= 1;
            if self.entries[i].0 == token.text {
                return self.entries[i].1;
            }
        }
        proof {
            assert(self.entries@.subrange(0, 0) =~= Seq::empty());
        }
        None
    }
}

/// The mapping that a list of recorded answers stands for: later answers
/// replace earlier ones for the same source slice and normalized text.
pub open spec fn answers_of(entries: Seq<(Token, Option<usize>)>) -> Map<
    (Seq<char>, Seq<char>),
    Option<usize>,
>
    decreases entries.len(),
{
    if entries.len() == 0 {
        Map::empty()
    } else {
        answers_of(entries.drop_last()).insert(
            (entries.last().0@.word, entries.last().0@.text),
            entries.last().1,
        )
    }
}

/// A matcher that holds the answers of an index's matching words for the
/// tokens of the texts at hand: a table from a token's source slice and
/// normalized text to the answer for it.
#[derive(Debug)]
pub struct IndexMatcher {
    entries: Vec<(Token, Option<usize>)>,
}

impl View for IndexMatcher {
    type V = Map<(Seq<char>, Seq<char>), Option<usize>>;

    closed spec fn view(&self) -> Map<(Seq<char>, Seq<char>), Option<usize>> {
        answers_of(self.entries@)
    }
}

impl IndexMatcher {
    /// The matcher without any answer: it matches nothing.
    pub fn new() -> (matcher: IndexMatcher)
        ensures
            matcher@ == Map::<(Seq<char>, Seq<char>), Option<usize>>::empty(),
    {
        IndexMatcher { entries: Vec::new() }
    }

    /// Records the answer for the tokens that have the source slice and the
    /// normalized text of `token`.
    pub fn record(&mut self, token: &Token, matched: Option<usize>)
        ensures
            final(self)@ == old(self)@.insert((token@.word, token@.text), matched),
    {
        self.entries.push((token.clone(), matched));
        assert(self.entries@.drop_last() =~= old(self).entries@);
    }
}

impl Matcher for IndexMatcher {
    open spec fn matched(&self, token: TokenView) -> Option<usize> {
        if self@.contains_key((token.word, token.text)) {
            self@[(token.word, token.text)]
        } else {
            None
        }
    }

    fn matches(&self, token: &Token) -> (matched: Option<usize>) {
        let mut i: usize = self.entries.len();
        let ghost key = (token@.word, token@.text);
        assert(self.entries@.subrange(0, i as int) =~= self.entries@);
        while i > 0
            invariant
                i <= self.entries.len(),
                key == (token@.word, token@.text),
                answers_of(self.entries@).contains_key(key) == answers_of(
                    self.entries@.subrange(0, i as int),
                ).contains_key(key),
                answers_of(self.entries@).contains_key(key) ==> answers_of(self.entries@)[key]
                    == answers_of(self.entries@.subrange(0, i as int))[key],
            decreases i,
        {
            proof {
                let prefix = self.entries@.subrange(0, i as int);
                assert(prefix.drop_last() =~= self.entries@.subrange(0, i as int - 1));
                assert(prefix.last() == self.entries@[i as int - 1]);
            }
            i -= 1;
            if self.entries[i].0.word == token.word && self.entries[i].0.text == token.text {
                return self.entries[i].1;
            }
        }
        proof {
            assert(self.entries@.subrange(0, 0) =~= Seq::empty());
        }
        None
    }
}

} // verus!
