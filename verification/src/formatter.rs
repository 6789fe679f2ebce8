//! The formatter: crops an analysed text to a window around its first match
//! and wraps the matched prefix of each matched word in highlight tags.

use crate::crop::{
    count_words, find_first_match, find_head_start, find_run_end, lemma_crop_budget, run_end,
    window,
};
use crate::matcher::{is_match, lemma_first_match_from, no_match_in, Matcher};
use crate::options::FormatOptions;
use crate::text::Text;
use crate::token::{source_of, token_views, Token, TokenView};
use crate::value::{
    Formatted, FormattedField, FormattedFieldView, FormattedView, Value, ValueView,
};
use vstd::prelude::*;
use vstd::string::StringExecFns;
use vstd::utf8::{decode_utf8, encode_utf8, is_char_boundary};

verus! {

broadcast use vstd::utf8::group_utf8_lib;

/// The strings that a formatter inserts.
pub struct FormatterView {
    pub pre_tag: Seq<char>,
    pub post_tag: Seq<char>,
    pub crop_marker: Seq<char>,
}

/// Inserts highlight tags and crop markers into texts.
#[derive(Debug)]
pub struct Formatter {
    highlight_tags: (String, String),
    crop_marker: String,
}

impl View for Formatter {
    type V = FormatterView;

    closed spec fn view(&self) -> FormatterView {
        FormatterView {
            pre_tag: self.highlight_tags.0@,
            post_tag: self.highlight_tags.1@,
            crop_marker: self.crop_marker@,
        }
    }
}

/// A word whose first `matched` bytes are highlighted. When the split falls
/// at the end of the word, beyond it, or inside a character, the tags go
/// around the whole word.
pub open spec fn highlighted(word: Seq<char>, matched: usize, tags: FormatterView) -> Seq<char> {
    let bytes = encode_utf8(word);
    if is_char_boundary(bytes, matched as int) {
        tags.pre_tag + decode_utf8(bytes.subrange(0, matched as int)) + tags.post_tag
            + decode_utf8(bytes.subrange(matched as int, bytes.len() as int))
    } else {
        tags.pre_tag + word + tags.post_tag
    }
}

/// What one token contributes to the output: a matched word is highlighted
/// when highlighting is on; every other token stands as it is in the source.
pub open spec fn piece<M: Matcher>(
    token: TokenView,
    matcher: &M,
    highlight: bool,
    tags: FormatterView,
) -> Seq<char> {
    if highlight && token.is_word() && matcher.matched(token) is Some {
        highlighted(token.word, matcher.matched(token)->0, tags)
    } else {
        token.word
    }
}

/// The pieces of `tokens[lo..hi]`, concatenated.
pub open spec fn rendered<M: Matcher>(
    tokens: Seq<TokenView>,
    lo: int,
    hi: int,
    matcher: &M,
    highlight: bool,
    tags: FormatterView,
) -> Seq<char>
    decreases hi - lo,
{
    if lo >= hi {
        Seq::empty()
    } else {
        rendered(tokens, lo, hi - 1, matcher, highlight, tags) + piece(
            tokens[hi - 1],
            matcher,
            highlight,
            tags,
        )
    }
}

/// The crop marker where one is due, nothing otherwise.
pub open spec fn marker_if(due: bool, tags: FormatterView) -> Seq<char> {
    if due {
        tags.crop_marker
    } else {
        Seq::empty()
    }
}

/// The formatted form of a text: the pieces of the tokens inside the crop
/// window, with a crop marker on each side where the window demands one.
pub open spec fn formatted_text<M: Matcher>(
    tokens: Seq<TokenView>,
    matcher: &M,
    options: FormatOptions,
    tags: FormatterView,
) -> Seq<char> {
    let kept = window(tokens, matcher, options);
    marker_if(kept.marker_before, tags) + rendered(
        tokens,
        kept.start,
        kept.end,
        matcher,
        options.highlight,
        tags,
    ) + marker_if(kept.marker_after, tags)
}

/// The formatted form of a document value. A string is formatted as a text;
/// a number is formatted as the text of its decimal form and comes out as a
/// string; the elements of an array and the values of an object are formatted
/// with highlighting kept and cropping cleared; other values are unchanged.
pub open spec fn formatted_value<M: Matcher>(
    value: ValueView,
    matcher: &M,
    options: FormatOptions,
    tags: FormatterView,
) -> FormattedView
    decreases value,
{
    match value {
        ValueView::Null => FormattedView::Null,
        ValueView::Bool(b) => FormattedView::Bool(b),
        ValueView::Number(text) => FormattedView::String(
            formatted_text(text, matcher, options, tags),
        ),
        ValueView::String(text) => FormattedView::String(
            formatted_text(text, matcher, options, tags),
        ),
        ValueView::Array(values) => FormattedView::Array(
            Seq::new(
                values.len(),
                |i: int|
                    if 0 <= i < values.len() {
                        formatted_value(values[i], matcher, options.inner(), tags)
                    } else {
                        FormattedView::Null
                    },
            ),
        ),
        ValueView::Object(fields) => FormattedView::Object(
            Seq::new(
                fields.len(),
                |i: int|
                    if 0 <= i < fields.len() {
                        FormattedFieldView {
                            name: fields[i].name,
                            value: formatted_value(fields[i].value, matcher, options.inner(), tags),
                        }
                    } else {
                        FormattedFieldView { name: Seq::empty(), value: FormattedView::Null }
                    },
            ),
        ),
    }
}

/// True when both highlight tags are empty.
pub open spec fn tags_are_empty(tags: FormatterView) -> bool {
    tags.pre_tag.len() == 0 && tags.post_tag.len() == 0
}

/// Highlighting only inserts tags: with empty tags a highlighted word is the
/// word itself, wherever the split falls.
pub proof fn lemma_highlight_keeps_the_word(word: Seq<char>, matched: usize, tags: FormatterView)
    requires
        tags_are_empty(tags),
    ensures
        highlighted(word, matched, tags) == word,
{
    let bytes = encode_utf8(word);
    if is_char_boundary(bytes, matched as int) {
        vstd::utf8::decode_utf8_split(bytes, matched as int);
        assert(decode_utf8(bytes) == word);
        assert(highlighted(word, matched, tags) =~= decode_utf8(
            bytes.subrange(0, matched as int),
        ) + decode_utf8(bytes.subrange(matched as int, bytes.len() as int)));
    } else {
        assert(highlighted(word, matched, tags) =~= word);
    }
}

/// With empty tags a run is rendered as its source, whatever is matched.
pub proof fn lemma_rendered_with_empty_tags<M: Matcher>(
    tokens: Seq<TokenView>,
    lo: int,
    hi: int,
    matcher: &M,
    highlight: bool,
    tags: FormatterView,
)
    requires
        tags_are_empty(tags),
    ensures
        rendered(tokens, lo, hi, matcher, highlight, tags) == source_of(tokens, lo, hi),
    decreases hi - lo,
{
    if lo < hi {
        lemma_rendered_with_empty_tags(tokens, lo, hi - 1, matcher, highlight, tags);
        let token = tokens[hi - 1];
        if highlight && token.is_word() && matcher.matched(token) is Some {
            lemma_highlight_keeps_the_word(token.word, matcher.matched(token)->0, tags);
        }
    }
}

/// Formatting only crops and inserts: with empty tags, what stands between
/// the crop markers of a formatted text is the source of the tokens inside
/// the crop window, whatever is matched.
pub proof fn lemma_formatted_text_is_source_of_window<M: Matcher>(
    tokens: Seq<TokenView>,
    matcher: &M,
    options: FormatOptions,
    tags: FormatterView,
)
    requires
        tags_are_empty(tags),
    ensures
        formatted_text(tokens, matcher, options, tags) == marker_if(
            window(tokens, matcher, options).marker_before,
            tags,
        ) + source_of(
            tokens,
            window(tokens, matcher, options).start,
            window(tokens, matcher, options).end,
        ) + marker_if(window(tokens, matcher, options).marker_after, tags),
{
    let kept = window(tokens, matcher, options);
    lemma_rendered_with_empty_tags(
        tokens,
        kept.start,
        kept.end,
        matcher,
        options.highlight,
        tags,
    );
}

/// Where no word of a run is matched, the run is rendered as its source.
pub proof fn lemma_rendered_without_match<M: Matcher>(
    tokens: Seq<TokenView>,
    lo: int,
    hi: int,
    matcher: &M,
    highlight: bool,
    tags: FormatterView,
)
    requires
        0 <= lo,
        hi <= tokens.len(),
        no_match_in(matcher, tokens, lo, hi),
    ensures
        rendered(tokens, lo, hi, matcher, highlight, tags) == source_of(tokens, lo, hi),
    decreases hi - lo,
{
    if lo < hi {
        lemma_rendered_without_match(tokens, lo, hi - 1, matcher, highlight, tags);
        assert(!is_match(matcher, tokens, hi - 1));
    }
}

/// Without highlighting a run is rendered as its source.
pub proof fn lemma_rendered_plain<M: Matcher>(
    tokens: Seq<TokenView>,
    lo: int,
    hi: int,
    matcher: &M,
    tags: FormatterView,
)
    ensures
        rendered(tokens, lo, hi, matcher, false, tags) == source_of(tokens, lo, hi),
    decreases hi - lo,
{
    if lo < hi {
        lemma_rendered_plain(tokens, lo, hi - 1, matcher, tags);
    }
}

/// A text formatted without highlighting and without an effective crop
/// budget is the source text unchanged, whatever is matched in it.
pub proof fn lemma_plain_text_is_unchanged<M: Matcher>(
    tokens: Seq<TokenView>,
    matcher: &M,
    options: FormatOptions,
    tags: FormatterView,
)
    requires
        !options.highlight,
        !options.crops(),
    ensures
        formatted_text(tokens, matcher, options, tags) == source_of(
            tokens,
            0,
            tokens.len() as int,
        ),
{
    lemma_rendered_plain(tokens, 0, tokens.len() as int, matcher, tags);
    assert(formatted_text(tokens, matcher, options, tags) =~= source_of(
        tokens,
        0,
        tokens.len() as int,
    ));
}

/// A text in which no word is matched, formatted without an effective crop
/// budget, is the source text unchanged.
pub proof fn lemma_unmatched_text_is_unchanged<M: Matcher>(
    tokens: Seq<TokenView>,
    matcher: &M,
    options: FormatOptions,
    tags: FormatterView,
)
    requires
        no_match_in(matcher, tokens, 0, tokens.len() as int),
        !options.crops(),
    ensures
        formatted_text(tokens, matcher, options, tags) == source_of(
            tokens,
            0,
            tokens.len() as int,
        ),
{
    lemma_rendered_without_match(
        tokens,
        0,
        tokens.len() as int,
        matcher,
        options.highlight,
        tags,
    );
    assert(formatted_text(tokens, matcher, options, tags) =~= source_of(
        tokens,
        0,
        tokens.len() as int,
    ));
}

/// A text in which no word is matched, cropped to a positive budget, is the
/// run of tokens from its start that spends the budget, as it stands in the
/// source, followed by one crop marker when a token is left beyond the run.
pub proof fn lemma_unmatched_text_cropped<M: Matcher>(
    tokens: Seq<TokenView>,
    matcher: &M,
    options: FormatOptions,
    tags: FormatterView,
)
    requires
        no_match_in(matcher, tokens, 0, tokens.len() as int),
        options.crops(),
    ensures
        formatted_text(tokens, matcher, options, tags) == source_of(
            tokens,
            0,
            window(tokens, matcher, options).end,
        ) + marker_if(window(tokens, matcher, options).end < tokens.len(), tags),
        window(tokens, matcher, options).end == run_end(
            tokens,
            0,
            options.crop->0 as nat,
        ),
{
    lemma_first_match_from(matcher, tokens, 0);
    lemma_crop_budget(tokens, matcher, options);
    let kept = window(tokens, matcher, options);
    lemma_rendered_without_match(tokens, 0, kept.end, matcher, options.highlight, tags);
    assert(formatted_text(tokens, matcher, options, tags) =~= source_of(tokens, 0, kept.end)
        + marker_if(kept.end < tokens.len(), tags));
}

impl Formatter {
    /// A formatter that wraps matches in `highlight_tags` (the opening tag,
    /// then the closing one) and marks cropped ends with `crop_marker`.
    pub fn new(highlight_tags: (String, String), crop_marker: String) -> (formatter: Formatter)
        ensures
            formatter@ == (FormatterView {
                pre_tag: highlight_tags.0@,
                post_tag: highlight_tags.1@,
                crop_marker: crop_marker@,
            }),
    {
        Formatter { highlight_tags, crop_marker }
    }

    /// Appends the piece of one token to `out`.
    fn push_piece<M: Matcher>(&self, out: &mut String, token: &Token, matcher: &M, highlight: bool)
        ensures
            final(out)@ == old(out)@ + piece(token@, matcher, highlight, self@),
    {
        let word = token.word.as_str();
        if highlight && token.is_word() {
            if let Some(matched) = matcher.matches(token) {
                if word.is_char_boundary(matched) {
                    let (head, tail) = word.split_at(matched);
                    proof {
                        let bytes = encode_utf8(word@);
                        assert(head@ == decode_utf8(encode_utf8(head@)));
                        assert(tail@ == decode_utf8(encode_utf8(tail@)));
                        assert(encode_utf8(head@) == bytes.subrange(0, matched as int));
                        assert(encode_utf8(tail@) == bytes.subrange(
                            matched as int,
                            bytes.len() as int,
                        ));
                    }
                    out.append(self.highlight_tags.0.as_str());
                    out.append(head);
                    out.append(self.highlight_tags.1.as_str());
                    out.append(tail);
                    assert(out@ =~= old(out)@ + piece(token@, matcher, highlight, self@));
                } else {
                    out.append(self.highlight_tags.0.as_str());
                    out.append(word);
                    out.append(self.highlight_tags.1.as_str());
                    assert(out@ =~= old(out)@ + piece(token@, matcher, highlight, self@));
                }
                return ;
            }
        }
        out.append(word);
    }

    /// Formats a document value.
    pub fn format_value<M: Matcher>(
        &self,
        value: &Value,
        matcher: &M,
        options: FormatOptions,
    ) -> (out: Formatted)
        ensures
            out@ == formatted_value(value@, matcher, options, self@),
        decreases value,
    {
        match value {
            Value::Null => Formatted::Null,
            Value::Bool(b) => Formatted::Bool(*b),
            Value::Number(text) => Formatted::String(self.format_string(text, matcher, options)),
            Value::String(text) => Formatted::String(self.format_string(text, matcher, options)),
            Value::Array(values) => {
                let inner = FormatOptions { highlight: options.highlight, crop: None };
                let mut out: Vec<Formatted> = Vec::new();
                let mut i: usize = 0;
                while i < values.len()
                    invariant
                        i <= values.len(),
                        out@.len() == i,
                        inner == options.inner(),
                        decreases_to!(value => *values),
                        forall|j: int|
                            0 <= j < i ==> out@[j]@ == formatted_value(
                                values@[j]@,
                                matcher,
                                inner,
                                self@,
                            ),
                    decreases values.len() - i,
                {
                    assert(decreases_to!(*values => values[i as int]));
                    let formatted = self.format_value(&values[i], matcher, inner);
                    out.push(formatted);
                    i += 1;
                }
                let result = Formatted::Array(out);
                proof {
                    value.lemma_array_view();
                    result.lemma_array_view();
                }
                assert(result@ == formatted_value(value@, matcher, options, self@)) by {
                    assert(result@->Array_0 =~= formatted_value(
                        value@,
                        matcher,
                        options,
                        self@,
                    )->Array_0);
                }
                result
            },
            Value::Object(fields) => {
                let inner = FormatOptions { highlight: options.highlight, crop: None };
                let mut out: Vec<FormattedField> = Vec::new();
                let mut i: usize = 0;
                while i < fields.len()
                    invariant
                        i <= fields.len(),
                        out@.len() == i,
                        inner == options.inner(),
                        decreases_to!(value => *fields),
                        forall|j: int|
                            0 <= j < i ==> out@[j].name@ == fields@[j].name@ && out@[j].value@
                                == formatted_value(fields@[j].value@, matcher, inner, self@),
                    decreases fields.len() - i,
                {
                    assert(decreases_to!(*fields => fields[i as int]));
                    let formatted = self.format_value(&fields[i].value, matcher, inner);
                    out.push(FormattedField { name: fields[i].name.clone(), value: formatted });
                    i += 1;
                }
                let result = Formatted::Object(out);
                proof {
                    value.lemma_object_view();
                    result.lemma_object_view();
                }
                assert(result@ == formatted_value(value@, matcher, options, self@)) by {
                    assert(result@->Object_0 =~= formatted_value(
                        value@,
                        matcher,
                        options,
                        self@,
                    )->Object_0);
                }
                result
            },
        }
    }

    /// Formats one analysed text: crops it as `options.crop` asks and
    /// highlights the matched words inside the window when
    /// `options.highlight` is set.
    pub fn format_string<M: Matcher>(
        &self,
        text: &Text,
        matcher: &M,
        options: FormatOptions,
    ) -> (out: String)
        ensures
            out@ == formatted_text(text@, matcher, options, self@),
    {
        let tokens = text.tokens();
        let ghost views = token_views(tokens@);
        let len = tokens.len();
        let mut start: usize = 0;
        let mut end: usize = len;
        let mut marker_before = false;
        if let Some(budget) = options.crop {
            if budget > 0 {
                let found = find_first_match(tokens, matcher);
                if found >= len {
                    end = find_run_end(tokens, 0, budget);
                } else {
                    let before = budget / 2;
                    let preceding = count_words(tokens, 0, found);
                    marker_before = preceding > before;
                    start = find_head_start(tokens, found, before, preceding);
                    let spent = if marker_before {
                        before + 1
                    } else {
                        preceding + 1
                    };
                    let after = if budget >= spent {
                        budget - spent
                    } else {
                        0
                    };
                    end = find_run_end(tokens, found + 1, after);
                }
                proof {
                    lemma_crop_budget(views, matcher, options);
                }
            }
        }
        let ghost kept = window(views, matcher, options);
        assert(kept.start == start && kept.end == end && kept.marker_before == marker_before);
        let mut out = if marker_before {
            self.crop_marker.clone()
        } else {
            String::new()
        };
        assert(out@ =~= marker_if(marker_before, self@));
        let mut i: usize = start;
        while i < end
            invariant
                start <= i <= end <= tokens.len(),
                views == token_views(tokens@),
                out@ == marker_if(marker_before, self@) + rendered(
                    views,
                    start as int,
                    i as int,
                    matcher,
                    options.highlight,
                    self@,
                ),
            decreases end - i,
        {
            self.push_piece(&mut out, &tokens[i], matcher, options.highlight);
            i += 1;
            assert(out@ =~= marker_if(marker_before, self@) + rendered(
                views,
                start as int,
                i as int,
                matcher,
                options.highlight,
                self@,
            ));
        }
        if end < len {
            out.append(self.crop_marker.as_str());
        }
        assert(out@ =~= formatted_text(views, matcher, options, self@));
        out
    }
}

} // verus!
