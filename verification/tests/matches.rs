use std::collections::BTreeMap;

use meilisearch_lib::{
    compute_matches, compute_value_matches, Document, Field, IndexMatcher, MatchInfo, Matcher,
    MatchesInfo, SearchQuery, TestMatcher, Text, Token, TokenKind, Value,
};

/// Words are the runs of letters and digits, looked up in lower case; every
/// other character is a separator of its own.
fn analyze(source: &str) -> Text {
    let mut tokens = Vec::new();
    let mut word = String::new();
    for c in source.chars() {
        if c.is_alphanumeric() {
            word.push(c);
        } else {
            if !word.is_empty() {
                tokens.push(Token::new(&word, &word.to_lowercase(), TokenKind::Word));
                word.clear();
            }
            let separator = c.to_string();
            tokens.push(Token::new(&separator, &separator, TokenKind::Separator));
        }
    }
    if !word.is_empty() {
        tokens.push(Token::new(&word, &word.to_lowercase(), TokenKind::Word));
    }
    Text::new(source.to_string(), tokens).unwrap()
}

fn analyzed(value: &serde_json::Value) -> Value {
    match value {
        serde_json::Value::Null => Value::Null,
        serde_json::Value::Bool(b) => Value::Bool(*b),
        serde_json::Value::Number(number) => Value::Number(analyze(&number.to_string())),
        serde_json::Value::String(text) => Value::String(analyze(text)),
        serde_json::Value::Array(values) => Value::Array(values.iter().map(analyzed).collect()),
        serde_json::Value::Object(fields) => Value::Object(
            fields
                .iter()
                .map(|(name, value)| Field { name: name.clone(), value: analyzed(value) })
                .collect(),
        ),
    }
}

fn document(json: &str) -> Document {
    let value: serde_json::Value = serde_json::from_str(json).unwrap();
    value.as_object().unwrap().iter().map(|(name, value)| (name.clone(), analyzed(value))).collect()
}

fn listed(matches: &MatchesInfo) -> BTreeMap<String, Vec<MatchInfo>> {
    matches.entries().iter().map(|entry| (entry.name.clone(), entry.infos.clone())).collect()
}

const MOBY_DICK: &str = "Call me Ishmael. Some years ago—never mind how long precisely—having little or no money in my purse, and nothing particular to interest me on shore, I thought I would sail about a little and see the watery part of the world.";

fn moby_dick_matcher() -> TestMatcher {
    let mut matcher = TestMatcher::new();
    matcher.insert("ishmael", Some(3));
    matcher.insert("little", Some(6));
    matcher.insert("particular", Some(1));
    matcher
}

#[test]
fn test_compute_value_matches() {
    let text = MOBY_DICK;
    let value = Value::String(analyze(text));
    let matcher = moby_dick_matcher();

    let mut infos = Vec::new();

    compute_value_matches(&mut infos, &value, &matcher);

    let mut infos = infos.into_iter();
    let crop = |info: MatchInfo| &text[info.start..info.start + info.length];

    assert_eq!(crop(infos.next().unwrap()), "Ish");
    assert_eq!(crop(infos.next().unwrap()), "little");
    assert_eq!(crop(infos.next().unwrap()), "p");
    assert_eq!(crop(infos.next().unwrap()), "little");
    assert!(infos.next().is_none());
}

#[test]
fn test_compute_match() {
    let value = document(
        r#"{
            "color": "Green",
            "name": "Lucas Hess",
            "gender": "male",
            "price": 3.5,
            "address": "412 Losee Terrace, Blairstown, Georgia, 2825",
            "about": "Mollit ad in exercitation quis Laboris . Anim est ut consequat fugiat duis magna aliquip velit nisi. Commodo eiusmod est consequat proident consectetur aliqua enim fugiat. Aliqua adipisicing laboris elit proident enim veniam laboris mollit. Incididunt fugiat minim ad nostrud deserunt tempor in. Id irure officia labore qui est labore nulla nisi. Magna sit quis tempor esse consectetur amet labore duis aliqua consequat.\r\n"
  }"#,
    );
    let mut matcher = TestMatcher::new();
    matcher.insert("green", Some(5));
    matcher.insert("mollit", Some(6));
    matcher.insert("laboris", Some(7));
    matcher.insert("3", Some(1));

    let matches = compute_matches(&matcher, &value);
    assert_eq!(
        format!("{:?}", listed(&matches)),
        r##"{"about": [MatchInfo { start: 0, length: 6 }, MatchInfo { start: 31, length: 7 }, MatchInfo { start: 191, length: 7 }, MatchInfo { start: 225, length: 7 }, MatchInfo { start: 233, length: 6 }], "color": [MatchInfo { start: 0, length: 5 }], "price": [MatchInfo { start: 0, length: 1 }]}"##
    );
    let names: Vec<&str> = matches.entries().iter().map(|entry| entry.name.as_str()).collect();
    assert_eq!(names, vec!["about", "color", "price"]);
    assert_eq!(matches.len(), 3);
    assert!(!matches.is_empty());
    assert_eq!(matches.get("color"), Some(&vec![MatchInfo { start: 0, length: 5 }]));
    assert_eq!(matches.get("name"), None);
}

#[test]
fn match_offsets_stay_inside_the_source_and_increase() {
    let value = Value::String(analyze(MOBY_DICK));
    let mut infos = Vec::new();
    compute_value_matches(&mut infos, &value, &moby_dick_matcher());
    assert_eq!(infos.len(), 4);
    for info in &infos {
        assert!(info.start + info.length <= MOBY_DICK.len());
    }
    for pair in infos.windows(2) {
        assert!(pair[0].start < pair[1].start);
    }
}

#[test]
fn offsets_count_bytes_of_words_and_separators() {
    let mut matcher = TestMatcher::new();
    matcher.insert("never", Some(5));
    let mut infos = Vec::new();
    compute_value_matches(&mut infos, &Value::String(analyze("ago—never")), &matcher);
    // "ago" takes three bytes and the dash three more
    assert_eq!(infos, vec![MatchInfo { start: 6, length: 5 }]);
}

#[test]
fn offsets_start_again_in_each_element() {
    let mut matcher = TestMatcher::new();
    matcher.insert("b", Some(1));
    let value = Value::Array(vec![
        Value::String(analyze("a b")),
        Value::Object(vec![
            Field { name: String::from("x"), value: Value::String(analyze("b")) },
            Field { name: String::from("y"), value: Value::Bool(true) },
            Field { name: String::from("z"), value: Value::Number(analyze("12")) },
        ]),
        Value::Null,
        Value::String(analyze("aa bb b")),
    ]);
    let mut infos = vec![MatchInfo { start: 9, length: 9 }];
    compute_value_matches(&mut infos, &value, &matcher);
    assert_eq!(
        infos,
        vec![
            MatchInfo { start: 9, length: 9 },
            MatchInfo { start: 2, length: 1 },
            MatchInfo { start: 0, length: 1 },
            MatchInfo { start: 6, length: 1 },
        ]
    );
}

#[test]
fn matcher_is_not_asked_about_separators() {
    let mut matcher = TestMatcher::new();
    matcher.insert(" ", Some(1));
    matcher.insert("b", None);
    let mut infos = Vec::new();
    compute_value_matches(&mut infos, &Value::String(analyze("a b")), &matcher);
    assert!(infos.is_empty());
}

#[test]
fn fields_without_matches_are_left_out() {
    let mut matcher = TestMatcher::new();
    matcher.insert("green", Some(5));
    let matches = compute_matches(&matcher, &document(r#"{"b": "red", "a": true, "c": null}"#));
    assert!(matches.is_empty());
    assert_eq!(matches, MatchesInfo::new());
}

#[test]
fn matches_are_kept_in_the_order_of_field_names() {
    let mut matches = MatchesInfo::new();
    for name in ["b", "a", "ab", "é", "", "B", "a"] {
        matches.insert(name.to_string(), vec![MatchInfo { start: name.len(), length: 1 }]);
    }
    let names: Vec<&str> = matches.entries().iter().map(|entry| entry.name.as_str()).collect();
    let mut sorted = vec!["", "B", "a", "ab", "b", "é"];
    sorted.sort();
    assert_eq!(names, sorted);
    assert_eq!(matches.get("a"), Some(&vec![MatchInfo { start: 1, length: 1 }]));
    matches.insert(String::from("a"), vec![]);
    assert_eq!(matches.get("a"), Some(&vec![]));
    assert_eq!(matches.len(), 6);
}

fn query(matches: bool) -> SearchQuery {
    SearchQuery {
        q: None,
        offset: None,
        limit: 20,
        attributes_to_retrieve: None,
        attributes_to_crop: None,
        crop_length: 10,
        attributes_to_highlight: None,
        matches,
        filter: None,
        sort: None,
        facets_distribution: None,
        highlight_pre_tag: String::from("<em>"),
        highlight_post_tag: String::from("</em>"),
        crop_marker: String::from("…"),
    }
}

#[test]
fn matches_are_computed_only_when_asked_for() {
    let mut matcher = TestMatcher::new();
    matcher.insert("green", Some(5));
    let document = document(r#"{"color": "Green"}"#);
    assert!(query(false).matches_of(&matcher, &document).is_none());
    let matches = query(true).matches_of(&matcher, &document).unwrap();
    assert_eq!(matches.get("color"), Some(&vec![MatchInfo { start: 0, length: 5 }]));
}

#[test]
fn index_matcher_answers_by_source_and_text() {
    let mut matcher = IndexMatcher::new();
    let upper = Token::new("Étoile", "etoile", TokenKind::Word);
    let lower = Token::new("etoile", "etoile", TokenKind::Word);
    assert_eq!(matcher.matches(&upper), None);
    matcher.record(&upper, Some(7));
    matcher.record(&lower, Some(6));
    assert_eq!(matcher.matches(&upper), Some(7));
    assert_eq!(matcher.matches(&lower), Some(6));
    assert_eq!(matcher.matches(&Token::new("etoiles", "etoile", TokenKind::Word)), None);
    matcher.record(&upper, None);
    assert_eq!(matcher.matches(&upper.clone()), None);
    assert_eq!(matcher.matches(&lower), Some(6));

    let mut infos = Vec::new();
    let text = Text::new(String::from("Étoile etoile"), vec![
        upper.clone(),
        Token::new(" ", " ", TokenKind::Separator),
        lower.clone(),
    ])
    .unwrap();
    compute_value_matches(&mut infos, &Value::String(text.clone()), &matcher);
    assert_eq!(infos, vec![MatchInfo { start: 8, length: 6 }]);
    assert_eq!(text.clone().source(), "Étoile etoile");
}

#[test]
fn test_matcher_keeps_the_last_answer() {
    let mut matcher = TestMatcher::new();
    let hobbit = Token::new("Hobbit", "hobbit", TokenKind::Word);
    assert_eq!(matcher.matches(&hobbit), None);
    matcher.insert("hobbit", Some(3));
    matcher.insert("the", Some(1));
    assert_eq!(matcher.matches(&hobbit), Some(3));
    matcher.insert("hobbit", Some(4));
    assert_eq!(matcher.matches(&hobbit), Some(4));
    matcher.insert("hobbit", None);
    assert_eq!(matcher.matches(&hobbit), None);
    assert_eq!(matcher.matches(&Token::new("The", "the", TokenKind::Word)), Some(1));
    assert!(hobbit.is_word());
    assert_eq!(hobbit.byte_len(), 6);
    assert_eq!(Token::new("é", "e", TokenKind::Separator).byte_len(), 2);
    assert!(!Token::new("é", "e", TokenKind::Separator).is_word());
}
