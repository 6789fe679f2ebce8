//! Match offsets: for each matched word of a text, where its source slice
//! starts in the text and how many of its bytes are matched.

use crate::document::{document_fields, fields_of, Document};
use crate::matcher::{answers_within_words, Matcher};
use crate::matches_info::{
    lemma_recorded_keeps_order, ordered_by_name, recorded, FieldMatchesView, MatchesInfo,
};
use crate::text::Text;
use crate::token::{
    byte_len, lemma_encode_concat, lemma_source_bytes_monotone, source_of, token_views,
    TokenView,
};
use crate::value::{FieldView, Value, ValueView};
use vstd::prelude::*;

verus! {

/// One match inside a string: `length` bytes, from byte `start` of the string.
#[derive(Clone, Copy, Debug, PartialEq, Eq)]
pub struct MatchInfo {
    pub start: usize,
    pub length: usize,
}

/// The matches among the first `upto` tokens of a text, in the order of the
/// tokens. The start of a match is the number of bytes that the tokens
/// before it take in the source; separators advance it as words do.
pub open spec fn text_matches<M: Matcher>(tokens: Seq<TokenView>, upto: int, matcher: &M) -> Seq<
    MatchInfo,
>
    decreases upto,
{
    if upto <= 0 {
        Seq::empty()
    } else {
        let token = tokens[upto - 1];
        let earlier = text_matches(tokens, upto - 1, matcher);
        if token.is_word() && matcher.matched(token) is Some {
            earlier.push(
                MatchInfo {
                    start: byte_len(source_of(tokens, 0, upto - 1)) as usize,
                    length: matcher.matched(token)->0,
                },
            )
        } else {
            earlier
        }
    }
}

/// The matches of a document value: those of a string; those of the decimal
/// form of a number; those of the elements of an array or of the values of
/// an object, one after the other, each with offsets into its own string.
/// Other values have none.
pub open spec fn value_matches<M: Matcher>(value: ValueView, matcher: &M) -> Seq<MatchInfo>
    decreases value, 0nat,
{
    match value {
        ValueView::String(text) => text_matches(text, text.len() as int, matcher),
        ValueView::Number(text) => text_matches(text, text.len() as int, matcher),
        ValueView::Array(values) => element_matches(values, values.len() as int, matcher),
        ValueView::Object(fields) => field_matches(fields, fields.len() as int, matcher),
        _ => Seq::empty(),
    }
}

/// The matches of the first `upto` elements of an array, in order.
pub open spec fn element_matches<M: Matcher>(values: Seq<ValueView>, upto: int, matcher: &M) -> Seq<
    MatchInfo,
>
    decreases values, upto,
{
    if upto <= 0 || upto > values.len() {
        Seq::empty()
    } else {
        element_matches(values, upto - 1, matcher) + value_matches(values[upto - 1], matcher)
    }
}

/// The matches of the first `upto` values of an object, in order.
pub open spec fn field_matches<M: Matcher>(
    fields: Seq<FieldView>,
    upto: int,
    matcher: &M,
) -> Seq<MatchInfo>
    decreases fields, upto,
{
    if upto <= 0 || upto > fields.len() {
        Seq::empty()
    } else {
        field_matches(fields, upto - 1, matcher) + value_matches(fields[upto - 1].value, matcher)
    }
}

/// True when no word among `tokens` has an empty source slice.
pub open spec fn words_are_nonempty(tokens: Seq<TokenView>) -> bool {
    forall|i: int|
        0 <= i < tokens.len() && (#[trigger] tokens[i]).is_word() ==> tokens[i].word.len() > 0
}

/// Every match among the first `upto` tokens starts at the start of a token
/// before `upto`, and ends, when the matcher answers within the words, no
/// later than that token does.
proof fn lemma_text_matches_inside<M: Matcher>(tokens: Seq<TokenView>, upto: int, matcher: &M)
    requires
        0 <= upto <= tokens.len(),
        byte_len(source_of(tokens, 0, tokens.len() as int)) <= usize::MAX,
    ensures
        forall|k: int|
            0 <= k < text_matches(tokens, upto, matcher).len() ==> exists|i: int|
                0 <= i < upto && tokens[i].is_word() && #[trigger] text_matches(
                    tokens,
                    upto,
                    matcher,
                )[k].start == byte_len(source_of(tokens, 0, i)) && matcher.matched(tokens[i])
                    == Some(text_matches(tokens, upto, matcher)[k].length),
    decreases upto,
{
    if upto > 0 {
        lemma_text_matches_inside(tokens, upto - 1, matcher);
        lemma_source_bytes_monotone(tokens, 0, upto - 1, tokens.len() as int);
        let infos = text_matches(tokens, upto, matcher);
        let earlier = text_matches(tokens, upto - 1, matcher);
        assert forall|k: int| 0 <= k < infos.len() implies exists|i: int|
            0 <= i < upto && tokens[i].is_word() && #[trigger] infos[k].start == byte_len(
                source_of(tokens, 0, i),
            ) && matcher.matched(tokens[i]) == Some(infos[k].length) by {
            if k < earlier.len() {
                assert(infos[k] == earlier[k]);
                let i = choose|i: int|
                    0 <= i < upto - 1 && tokens[i].is_word() && earlier[k].start == byte_len(
                        source_of(tokens, 0, i),
                    ) && matcher.matched(tokens[i]) == Some(earlier[k].length);
                assert(0 <= i < upto && tokens[i].is_word() && infos[k].start == byte_len(
                    source_of(tokens, 0, i),
                ) && matcher.matched(tokens[i]) == Some(infos[k].length));
            } else {
                let i = upto - 1;
                assert(0 <= i < upto && tokens[i].is_word() && infos[k].start == byte_len(
                    source_of(tokens, 0, i),
                ) && matcher.matched(tokens[i]) == Some(infos[k].length));
            }
        }
    }
}

/// The byte length of the source up to a token, plus the byte length of
/// that token, is within the byte length of the whole source.
proof fn lemma_token_inside_source(tokens: Seq<TokenView>, i: int)
    requires
        0 <= i < tokens.len(),
    ensures
        byte_len(source_of(tokens, 0, i)) + tokens[i].byte_len() <= byte_len(
            source_of(tokens, 0, tokens.len() as int),
        ),
        byte_len(source_of(tokens, 0, i + 1)) == byte_len(source_of(tokens, 0, i))
            + tokens[i].byte_len(),
{
    lemma_source_bytes_monotone(tokens, 0, i + 1, tokens.len() as int);
    lemma_encode_concat(source_of(tokens, 0, i), tokens[i].word);
}

/// Where the matcher answers, for each word, with no more bytes than the
/// word has, every match of a text lies inside the source string.
pub proof fn lemma_matches_within_source<M: Matcher>(tokens: Seq<TokenView>, matcher: &M)
    requires
        byte_len(source_of(tokens, 0, tokens.len() as int)) <= usize::MAX,
        answers_within_words(matcher, tokens),
    ensures
        forall|k: int|
            0 <= k < text_matches(tokens, tokens.len() as int, matcher).len() ==> (
            #[trigger] text_matches(tokens, tokens.len() as int, matcher)[k]).start + text_matches(
                tokens,
                tokens.len() as int,
                matcher,
            )[k].length <= byte_len(source_of(tokens, 0, tokens.len() as int)),
{
    let len = tokens.len() as int;
    let infos = text_matches(tokens, len, matcher);
    lemma_text_matches_inside(tokens, len, matcher);
    assert forall|k: int| 0 <= k < infos.len() implies (#[trigger] infos[k]).start
        + infos[k].length <= byte_len(source_of(tokens, 0, len)) by {
        let i = choose|i: int|
            0 <= i < len && tokens[i].is_word() && infos[k].start == byte_len(
                source_of(tokens, 0, i),
            ) && matcher.matched(tokens[i]) == Some(infos[k].length);
        lemma_token_inside_source(tokens, i);
    }
}

/// Every match among the first `upto` tokens starts before the end of those
/// tokens when words are not empty, and the starts increase strictly.
proof fn lemma_text_matches_increase<M: Matcher>(tokens: Seq<TokenView>, upto: int, matcher: &M)
    requires
        0 <= upto <= tokens.len(),
        byte_len(source_of(tokens, 0, tokens.len() as int)) <= usize::MAX,
        words_are_nonempty(tokens),
    ensures
        forall|k: int|
            0 <= k < text_matches(tokens, upto, matcher).len() ==> (#[trigger] text_matches(
                tokens,
                upto,
                matcher,
            )[k]).start < byte_len(source_of(tokens, 0, upto)),
        forall|j: int, k: int|
            0 <= j < k < text_matches(tokens, upto, matcher).len() ==> (#[trigger] text_matches(
                tokens,
                upto,
                matcher,
            )[j]).start < (#[trigger] text_matches(tokens, upto, matcher)[k]).start,
    decreases upto,
{
    if upto > 0 {
        lemma_text_matches_increase(tokens, upto - 1, matcher);
        lemma_token_inside_source(tokens, upto - 1);
        let token = tokens[upto - 1];
        let infos = text_matches(tokens, upto, matcher);
        let earlier = text_matches(tokens, upto - 1, matcher);
        let before = byte_len(source_of(tokens, 0, upto - 1));
        let now = byte_len(source_of(tokens, 0, upto));
        assert(before <= now <= usize::MAX) by {
            lemma_source_bytes_monotone(tokens, 0, upto, tokens.len() as int);
        }
        if token.is_word() {
            lemma_nonempty_has_bytes(token.word);
            assert(before < now);
        }
        assert forall|k: int| 0 <= k < infos.len() implies (#[trigger] infos[k]).start < now by {
            if k < earlier.len() {
                assert(infos[k] == earlier[k]);
            }
        }
        assert forall|j: int, k: int| 0 <= j < k < infos.len() implies (#[trigger] infos[j]).start
            < (#[trigger] infos[k]).start by {
            assert(infos[j] == earlier[j]);
            if k < earlier.len() {
                assert(infos[k] == earlier[k]);
            }
        }
    }
}

/// A text that is not empty takes at least one byte.
pub proof fn lemma_nonempty_has_bytes(text: Seq<char>)
    requires
        text.len() > 0,
    ensures
        byte_len(text) > 0,
{
    vstd::utf8::encode_utf8_first_scalar(text);
}

/// Within one text whose words are not empty, the starts of successive
/// matches increase strictly.
pub proof fn lemma_match_starts_increase<M: Matcher>(tokens: Seq<TokenView>, matcher: &M)
    requires
        byte_len(source_of(tokens, 0, tokens.len() as int)) <= usize::MAX,
        words_are_nonempty(tokens),
    ensures
        forall|j: int, k: int|
            0 <= j < k < text_matches(tokens, tokens.len() as int, matcher).len() ==> (
            #[trigger] text_matches(tokens, tokens.len() as int, matcher)[j]).start < (
            #[trigger] text_matches(tokens, tokens.len() as int, matcher)[k]).start,
{
    lemma_text_matches_increase(tokens, tokens.len() as int, matcher);
}

/// Appends the matches of one text to `infos`.
fn compute_text_matches<M: Matcher>(infos: &mut Vec<MatchInfo>, text: &Text, matcher: &M)
    ensures
        final(infos)@ == old(infos)@ + text_matches(text@, text@.len() as int, matcher),
{
    let tokens = text.tokens();
    let ghost views = token_views(tokens@);
    let mut start: usize = 0;
    let mut i: usize = 0;
    assert(infos@ =~= old(infos)@ + text_matches(views, 0, matcher));
    while i < tokens.len()
        invariant
            i <= tokens.len(),
            views == token_views(tokens@),
            byte_len(source_of(views, 0, views.len() as int)) <= usize::MAX,
            start == byte_len(source_of(views, 0, i as int)),
            infos@ == old(infos)@ + text_matches(views, i as int, matcher),
        decreases tokens.len() - i,
    {
        proof {
            lemma_token_inside_source(views, i as int);
        }
        if tokens[i].is_word() {
            if let Some(length) = matcher.matches(&tokens[i]) {
                infos.push(MatchInfo { start, length });
            }
        }
        start += tokens[i].byte_len();
        i += 1;
        assert(infos@ =~= old(infos)@ + text_matches(views, i as int, matcher));
    }
}

/// Appends the matches of a document value to `infos`.
pub fn compute_value_matches<M: Matcher>(infos: &mut Vec<MatchInfo>, value: &Value, matcher: &M)
    ensures
        final(infos)@ == old(infos)@ + value_matches(value@, matcher),
    decreases value,
{
    match value {
        Value::String(text) => compute_text_matches(infos, text, matcher),
        Value::Number(text) => compute_text_matches(infos, text, matcher),
        Value::Array(values) => {
            let mut i: usize = 0;
            proof {
                value.lemma_array_view();
            }
            assert(infos@ =~= old(infos)@ + element_matches(value@->Array_0, 0, matcher));
            while i < values.len()
                invariant
                    i <= values.len(),
                    decreases_to!(value => *values),
                    value@ is Array,
                    value@->Array_0.len() == values@.len(),
                    forall|j: int| 0 <= j < values@.len() ==> value@->Array_0[j] == values@[j]@,
                    infos@ == old(infos)@ + element_matches(value@->Array_0, i as int, matcher),
                decreases values.len() - i,
            {
                assert(decreases_to!(*values => values[i as int]));
                compute_value_matches(infos, &values[i], matcher);
                i += 1;
                assert(infos@ =~= old(infos)@ + element_matches(
                    value@->Array_0,
                    i as int,
                    matcher,
                ));
            }
        },
        Value::Object(fields) => {
            let mut i: usize = 0;
            proof {
                value.lemma_object_view();
            }
            assert(infos@ =~= old(infos)@ + field_matches(value@->Object_0, 0, matcher));
            while i < fields.len()
                invariant
                    i <= fields.len(),
                    decreases_to!(value => *fields),
                    value@ is Object,
                    value@->Object_0.len() == fields@.len(),
                    forall|j: int| 0 <= j < fields@.len() ==> value@->Object_0[j] == fields@[j]@,
                    infos@ == old(infos)@ + field_matches(value@->Object_0, i as int, matcher),
                decreases fields.len() - i,
            {
                assert(decreases_to!(*fields => fields[i as int]));
                compute_value_matches(infos, &fields[i].value, matcher);
                i += 1;
                assert(infos@ =~= old(infos)@ + field_matches(
                    value@->Object_0,
                    i as int,
                    matcher,
                ));
            }
        },
        _ => {
            assert(infos@ =~= old(infos)@ + value_matches(value@, matcher));
        },
    }
}

/// The matches of the first `upto` fields of a document: each field that
/// holds at least one match is recorded under its name, with its matches in
/// the order in which they are found.
pub open spec fn document_matches<M: Matcher>(
    fields: Seq<FieldView>,
    upto: int,
    matcher: &M,
) -> Seq<FieldMatchesView>
    decreases upto,
{
    if upto <= 0 {
        Seq::empty()
    } else {
        let earlier = document_matches(fields, upto - 1, matcher);
        let infos = value_matches(fields[upto - 1].value, matcher);
        if infos.len() > 0 {
            recorded(earlier, fields[upto - 1].name, infos)
        } else {
            earlier
        }
    }
}

/// The matches of a document stand in the order of the field names, and
/// every field among them holds at least one match.
pub proof fn lemma_document_matches<M: Matcher>(fields: Seq<FieldView>, upto: int, matcher: &M)
    ensures
        ordered_by_name(document_matches(fields, upto, matcher)),
        forall|k: int|
            0 <= k < document_matches(fields, upto, matcher).len() ==> (
            #[trigger] document_matches(fields, upto, matcher)[k]).infos.len() > 0,
    decreases upto,
{
    if upto > 0 {
        lemma_document_matches(fields, upto - 1, matcher);
        let earlier = document_matches(fields, upto - 1, matcher);
        let infos = value_matches(fields[upto - 1].value, matcher);
        if infos.len() > 0 {
            lemma_recorded_keeps_order(earlier, fields[upto - 1].name, infos);
            let now = recorded(earlier, fields[upto - 1].name, infos);
            assert forall|k: int| 0 <= k < now.len() implies (#[trigger] now[k]).infos.len()
                > 0 by {
                if now[k] != (FieldMatchesView { name: fields[upto - 1].name, infos }) {
                    assert(earlier.contains(now[k]));
                    let at = choose|at: int| 0 <= at < earlier.len() && earlier[at] == now[k];
                    assert(earlier[at].infos.len() > 0);
                }
            }
        }
    }
}

/// The matches of a document, field by field. Only fields with at least one
/// match appear, in the order of their names.
pub fn compute_matches<M: Matcher>(matcher: &M, document: &Document) -> (matches: MatchesInfo)
    ensures
        matches@ == document_matches(
            document_fields(*document),
            document_fields(*document).len() as int,
            matcher,
        ),
        matches.wf(),
{
    let fields = fields_of(document);
    let ghost views = document_fields(*document);
    let mut matches = MatchesInfo::new();
    let mut i: usize = 0;
    while i < fields.len()
        invariant
            i <= fields.len(),
            views == document_fields(*document),
            fields@.len() == views.len(),
            forall|k: int|
                0 <= k < fields@.len() ==> (#[trigger] fields@[k]).0@ == views[k].name
                    && fields@[k].1@ == views[k].value,
            matches.wf(),
            matches@ == document_matches(views, i as int, matcher),
        decreases fields.len() - i,
    {
        let mut infos: Vec<MatchInfo> = Vec::new();
        let field = &fields[i];
        compute_value_matches(&mut infos, field.1, matcher);
        assert(infos@ =~= value_matches(views[i as int].value, matcher));
        if !infos.is_empty() {
            matches.insert(field.0.clone(), infos);
        }
        i += 1;
    }
    matches
}

} // verus!
