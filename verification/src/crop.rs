//! The crop window: which tokens of a text are kept when the text is cropped
//! to a budget of words around its first match.

use crate::matcher::{first_match_from, is_match, lemma_first_match_from, no_match_in, Matcher};
use crate::options::FormatOptions;
use crate::token::{lemma_split_run, token_views, words_in, Token, TokenView};
use vstd::prelude::*;

verus! {

/// `a - b`, or zero when `b` is the larger.
pub open spec fn minus(a: nat, b: nat) -> nat {
    if a >= b {
        (a - b) as nat
    } else {
        0
    }
}

/// Where a run that starts at `from` ends when tokens are taken until
/// `budget` words have been taken. Separators are free, but none is taken
/// once the budget is spent.
pub open spec fn run_end(tokens: Seq<TokenView>, from: int, budget: nat) -> int
    decreases tokens.len() - from,
{
    if from >= tokens.len() {
        tokens.len() as int
    } else if budget == 0 {
        from
    } else if tokens[from].is_word() {
        run_end(tokens, from + 1, (budget - 1) as nat)
    } else {
        run_end(tokens, from + 1, budget)
    }
}

/// Where the kept part before a match at `found` starts: at the first token
/// at or after `from` that has fewer than `budget` words between itself and
/// the match, or at the match when there is no such token.
pub open spec fn head_start(tokens: Seq<TokenView>, from: int, found: int, budget: nat) -> int
    decreases found - from,
{
    if from >= found {
        found
    } else if words_in(tokens, from + 1, found) < budget {
        from
    } else {
        head_start(tokens, from + 1, found, budget)
    }
}

/// The tokens that are kept, `tokens[start..end]`, and whether a crop marker
/// stands before and after them.
pub struct Window {
    pub start: int,
    pub end: int,
    pub marker_before: bool,
    pub marker_after: bool,
}

/// The window that `options` selects in `tokens`.
///
/// Without a positive crop budget the window is the whole text. With a
/// budget and no matched word, it is the run from the start of the text that
/// spends the budget. With a matched word, half of the budget (rounded down)
/// goes to the words before the first match, one word is the match itself,
/// and the rest goes to the words after it; what the text lacks before the
/// match is handed to the part after it. A marker stands before the window
/// when more words precede the match than the first half allows, and after
/// it when any token is left beyond the window.
pub open spec fn window<M: Matcher>(
    tokens: Seq<TokenView>,
    matcher: &M,
    options: FormatOptions,
) -> Window {
    let len = tokens.len() as int;
    if !options.crops() {
        Window { start: 0, end: len, marker_before: false, marker_after: false }
    } else {
        let budget = options.crop->0 as nat;
        let found = first_match_from(matcher, tokens, 0);
        if found >= len {
            let end = run_end(tokens, 0, budget);
            Window { start: 0, end, marker_before: false, marker_after: end < len }
        } else {
            let before = budget / 2;
            let preceding = words_in(tokens, 0, found);
            let marker_before = preceding > before;
            let after = if marker_before {
                minus(budget, before + 1)
            } else {
                minus(budget, preceding + 1)
            };
            let end = run_end(tokens, found + 1, after);
            Window {
                start: head_start(tokens, 0, found, before),
                end,
                marker_before,
                marker_after: end < len,
            }
        }
    }
}

/// A run stays inside the text, takes no more words than its budget, and
/// stops before the end of the text only when the budget is spent.
pub proof fn lemma_run_end(tokens: Seq<TokenView>, from: int, budget: nat)
    requires
        0 <= from <= tokens.len(),
    ensures
        from <= run_end(tokens, from, budget) <= tokens.len(),
        words_in(tokens, from, run_end(tokens, from, budget)) <= budget,
        run_end(tokens, from, budget) < tokens.len() ==> words_in(
            tokens,
            from,
            run_end(tokens, from, budget),
        ) == budget,
    decreases tokens.len() - from,
{
    if from < tokens.len() && budget != 0 {
        let rest: nat = if tokens[from].is_word() {
            (budget - 1) as nat
        } else {
            budget
        };
        lemma_run_end(tokens, from + 1, rest);
        let end = run_end(tokens, from + 1, rest);
        lemma_split_run(tokens, from, from + 1, end);
        assert(words_in(tokens, from, from + 1) == if tokens[from].is_word() {
            1nat
        } else {
            0nat
        }) by {
            assert(words_in(tokens, from, from) == 0);
        }
    }
}

/// The kept part before a match starts between `from` and the match and
/// holds no more words than its budget; it holds exactly the budget when the
/// text has at least that many words before the match.
pub proof fn lemma_head_start(tokens: Seq<TokenView>, from: int, found: int, budget: nat)
    requires
        0 <= from <= found <= tokens.len(),
    ensures
        from <= head_start(tokens, from, found, budget) <= found,
        words_in(tokens, head_start(tokens, from, found, budget), found) <= budget,
        words_in(tokens, from, found) >= budget ==> words_in(
            tokens,
            head_start(tokens, from, found, budget),
            found,
        ) == budget,
        words_in(tokens, from, found) < budget ==> head_start(tokens, from, found, budget)
            == from,
    decreases found - from,
{
    if from < found {
        lemma_split_run(tokens, from, from + 1, found);
        assert(words_in(tokens, from, from + 1) <= 1) by {
            assert(words_in(tokens, from, from) == 0);
        }
        if words_in(tokens, from + 1, found) >= budget {
            lemma_head_start(tokens, from + 1, found, budget);
        }
    }
}

/// The word budget of cropping: a window selected with a positive crop
/// budget lies inside the text and holds no more words than the budget, the
/// matched word counted once. Without a matched word the window starts at
/// the start of the text and no marker stands before it; with one, the
/// first matched word is inside the window.
pub proof fn lemma_crop_budget<M: Matcher>(
    tokens: Seq<TokenView>,
    matcher: &M,
    options: FormatOptions,
)
    requires
        options.crops(),
    ensures
        0 <= window(tokens, matcher, options).start <= window(tokens, matcher, options).end
            <= tokens.len(),
        words_in(
            tokens,
            window(tokens, matcher, options).start,
            window(tokens, matcher, options).end,
        ) <= options.crop->0,
        no_match_in(matcher, tokens, 0, tokens.len() as int) ==> {
            &&& window(tokens, matcher, options).start == 0
            &&& !window(tokens, matcher, options).marker_before
        },
        first_match_from(matcher, tokens, 0) < tokens.len() ==> {
            &&& window(tokens, matcher, options).start <= first_match_from(matcher, tokens, 0)
            &&& first_match_from(matcher, tokens, 0) < window(tokens, matcher, options).end
        },
{
    let len = tokens.len() as int;
    let budget = options.crop->0 as nat;
    let found = first_match_from(matcher, tokens, 0);
    lemma_first_match_from(matcher, tokens, 0);
    if found >= len {
        lemma_run_end(tokens, 0, budget);
    } else {
        assert(is_match(matcher, tokens, found));
        let before = budget / 2;
        let preceding = words_in(tokens, 0, found);
        let after = if preceding > before {
            minus(budget, before + 1)
        } else {
            minus(budget, preceding + 1)
        };
        let start = head_start(tokens, 0, found, before);
        let end = run_end(tokens, found + 1, after);
        lemma_head_start(tokens, 0, found, before);
        lemma_run_end(tokens, found + 1, after);
        lemma_split_run(tokens, start, found, end);
        lemma_split_run(tokens, found, found + 1, end);
        assert(words_in(tokens, found, found + 1) == 1) by {
            assert(words_in(tokens, found, found) == 0);
        }
        if preceding <= before {
            lemma_split_run(tokens, 0, start, found);
        }
    }
}

/// The number of words among `tokens[lo..hi]`.
pub(crate) fn count_words(tokens: &Vec<Token>, lo: usize, hi: usize) -> (count: usize)
    requires
        lo <= hi <= tokens.len(),
    ensures
        count == words_in(token_views(tokens@), lo as int, hi as int),
        count <= hi - lo,
{
    let mut count: usize = 0;
    let mut i: usize = lo;
    while i < hi
        invariant
            lo <= i <= hi <= tokens.len(),
            count == words_in(token_views(tokens@), lo as int, i as int),
            count <= i - lo,
        decreases hi - i,
    {
        if tokens[i].is_word() {
            count += 1;
        }
        i += 1;
    }
    count
}

/// The end of the run that starts at `from` and spends `budget` words.
pub(crate) fn find_run_end(tokens: &Vec<Token>, from: usize, budget: usize) -> (end: usize)
    requires
        from <= tokens.len(),
    ensures
        end == run_end(token_views(tokens@), from as int, budget as nat),
        from <= end <= tokens.len(),
{
    let mut taken: usize = 0;
    let mut i: usize = from;
    proof {
        lemma_run_end(token_views(tokens@), from as int, budget as nat);
    }
    while i < tokens.len() && taken < budget
        invariant
            from <= i <= tokens.len(),
            taken <= budget,
            run_end(token_views(tokens@), from as int, budget as nat) == run_end(
                token_views(tokens@),
                i as int,
                (budget - taken) as nat,
            ),
        decreases tokens.len() - i,
    {
        if tokens[i].is_word() {
            taken += 1;
        }
        i += 1;
    }
    i
}

/// The start of the kept part before a match at `found`, of which
/// `preceding` is the number of words before it.
pub(crate) fn find_head_start(
    tokens: &Vec<Token>,
    found: usize,
    budget: usize,
    preceding: usize,
) -> (start: usize)
    requires
        found <= tokens.len(),
        preceding == words_in(token_views(tokens@), 0, found as int),
    ensures
        start == head_start(token_views(tokens@), 0, found as int, budget as nat),
        start <= found,
{
    let mut remaining: usize = preceding;
    let mut i: usize = 0;
    while i < found
        invariant
            i <= found <= tokens.len(),
            remaining == words_in(token_views(tokens@), i as int, found as int),
            head_start(token_views(tokens@), 0, found as int, budget as nat) == head_start(
                token_views(tokens@),
                i as int,
                found as int,
                budget as nat,
            ),
        decreases found - i,
    {
        proof {
            let views = token_views(tokens@);
            lemma_split_run(views, i as int, i as int + 1, found as int);
            assert(words_in(views, i as int, i as int + 1) == if views[i as int].is_word() {
                1nat
            } else {
                0nat
            }) by {
                assert(words_in(views, i as int, i as int) == 0);
            }
        }
        if tokens[i].is_word() {
            remaining -= 1;
        }
        if remaining < budget {
            return i;
        }
        i += 1;
    }
    found
}

/// The index of the first matched word, or the number of tokens when no
/// word is matched. The matcher is asked about words only.
pub(crate) fn find_first_match<M: Matcher>(tokens: &Vec<Token>, matcher: &M) -> (found: usize)
    ensures
        found == first_match_from(matcher, token_views(tokens@), 0),
        found <= tokens.len(),
{
    let mut i: usize = 0;
    proof {
        lemma_first_match_from(matcher, token_views(tokens@), 0);
    }
    while i < tokens.len()
        invariant
            i <= tokens.len(),
            first_match_from(matcher, token_views(tokens@), 0) == first_match_from(
                matcher,
                token_views(tokens@),
                i as int,
            ),
        decreases tokens.len() - i,
    {
        if tokens[i].is_word() {
            if matcher.matches(&tokens[i]).is_some() {
                return i;
            }
        }
        i += 1;
    }
    i
}

} // verus!
