use std::collections::{BTreeMap, BTreeSet};

use meilisearch_lib::plan::split_crop_attr;
use meilisearch_lib::{
    add_crop_to_formatted_options, add_highlight_to_formatted_options,
    add_non_formatted_ids_to_formatted_options, compute_formatted_options, format_options_for,
    formatted_selectors, is_faceted_by, retrieved_selectors, FieldId, FieldsIdsMap, FormatOptions,
};

fn fields() -> FieldsIdsMap {
    let mut fields = FieldsIdsMap::new();
    assert_eq!(fields.insert("title"), Some(0));
    assert_eq!(fields.insert("author"), Some(1));
    assert_eq!(fields.insert("year"), Some(2));
    assert_eq!(fields.insert("secret"), Some(3));
    fields
}

fn ids(listed: &[FieldId]) -> BTreeSet<FieldId> {
    listed.iter().copied().collect()
}

fn strings(listed: &[&str]) -> Vec<String> {
    listed.iter().map(|s| s.to_string()).collect()
}

fn options(highlight: bool, crop: Option<usize>) -> FormatOptions {
    FormatOptions { highlight, crop }
}

fn plan(entries: &[(FieldId, FormatOptions)]) -> BTreeMap<FieldId, FormatOptions> {
    entries.iter().copied().collect()
}

#[test]
fn merge_takes_either_highlight_and_the_first_crop() {
    let a = options(true, None);
    let b = options(false, Some(3));
    let c = options(false, Some(7));
    assert_eq!(a.merge(b), options(true, Some(3)));
    assert_eq!(b.merge(a), options(true, Some(3)));
    assert_eq!(b.merge(c), options(false, Some(3)));
    assert_eq!(c.merge(b), options(false, Some(7)));
    assert_eq!(FormatOptions::default(), options(false, None));
    assert_eq!(FormatOptions::default().merge(c), c);
    assert_eq!(c.merge(FormatOptions::default()), c);
}

#[test]
fn fields_ids_map_is_one_to_one() {
    let mut fields = fields();
    assert_eq!(fields.len(), 4);
    assert_eq!(fields.id("author"), Some(1));
    assert_eq!(fields.id("editor"), None);
    assert_eq!(fields.name(2), Some("year"));
    assert_eq!(fields.name(4), None);
    assert_eq!(fields.insert("author"), Some(1));
    assert_eq!(fields.len(), 4);
    assert_eq!(fields.insert("editor"), Some(4));
    assert_eq!(fields.name(4), Some("editor"));
}

#[test]
fn highlight_star_takes_every_displayed_field() {
    let mut formatted_options = plan(&[(3, options(false, Some(2)))]);
    add_highlight_to_formatted_options(
        &mut formatted_options,
        &strings(&["author", "*", "year"]),
        &fields(),
        &ids(&[0, 1]),
    );
    assert_eq!(
        formatted_options,
        plan(&[(0, options(true, None)), (1, options(true, None)), (3, options(false, Some(2)))])
    );
}

#[test]
fn highlight_names_only_displayed_and_known_fields() {
    let mut formatted_options = plan(&[(0, options(false, Some(2)))]);
    add_highlight_to_formatted_options(
        &mut formatted_options,
        &strings(&["title", "secret", "editor"]),
        &fields(),
        &ids(&[0, 1, 2]),
    );
    assert_eq!(formatted_options, plan(&[(0, options(true, None))]));
}

#[test]
fn crop_attributes_carry_their_budget() {
    assert_eq!(split_crop_attr("title", 10), (String::from("title"), 10));
    assert_eq!(split_crop_attr("title:5", 10), (String::from("title"), 5));
    assert_eq!(split_crop_attr("title:+5", 10), (String::from("title"), 5));
    assert_eq!(split_crop_attr("title:0", 10), (String::from("title"), 0));
    assert_eq!(split_crop_attr("title:007", 10), (String::from("title"), 7));
    assert_eq!(split_crop_attr("title:", 10), (String::from("title"), 10));
    assert_eq!(split_crop_attr("title:abc", 10), (String::from("title"), 10));
    assert_eq!(split_crop_attr("title:-5", 10), (String::from("title"), 10));
    assert_eq!(split_crop_attr("title: 5", 10), (String::from("title"), 10));
    assert_eq!(split_crop_attr("title:5 ", 10), (String::from("title"), 10));
    assert_eq!(split_crop_attr("title:٣", 10), (String::from("title"), 10));
    assert_eq!(split_crop_attr("a:b:3", 10), (String::from("a:b"), 3));
    assert_eq!(split_crop_attr(":3", 10), (String::new(), 3));
    assert_eq!(split_crop_attr("*:2", 10), (String::from("*"), 2));
    assert_eq!(split_crop_attr("", 10), (String::new(), 10));
    assert_eq!(
        split_crop_attr("title:99999999999999999999999999999999999999", 10),
        (String::from("title"), 10)
    );
    assert_eq!(
        split_crop_attr(&format!("title:{}", usize::MAX), 10),
        (String::from("title"), usize::MAX)
    );
}

#[test]
fn crop_keeps_highlight_and_later_attributes_win() {
    let mut formatted_options = plan(&[(0, options(true, None)), (3, options(true, Some(1)))]);
    add_crop_to_formatted_options(
        &mut formatted_options,
        &strings(&["title:5", "year", "secret:2", "editor:4", "title:6", "*:8", "author:9"]),
        10,
        &fields(),
        &ids(&[0, 1, 2]),
    );
    assert_eq!(
        formatted_options,
        plan(&[
            (0, options(true, Some(8))),
            (1, options(false, Some(9))),
            (2, options(false, Some(8))),
            (3, options(true, Some(1))),
        ])
    );
}

#[test]
fn retrieved_fields_fill_the_plan_without_replacing() {
    let mut formatted_options = plan(&[(0, options(true, Some(3)))]);
    add_non_formatted_ids_to_formatted_options(&mut formatted_options, &ids(&[0, 2]));
    assert_eq!(
        formatted_options,
        plan(&[(0, options(true, Some(3))), (2, options(false, None))])
    );
}

#[test]
fn plan_is_empty_without_a_valid_attribute() {
    let fields = fields();
    let displayed = ids(&[0, 1, 2]);
    let retrieved = ids(&[0, 1]);
    let none = strings(&[]);
    assert!(
        compute_formatted_options(&none, &none, 10, &retrieved, &fields, &displayed).is_empty()
    );
    assert!(compute_formatted_options(
        &strings(&["secret", "editor"]),
        &strings(&["secret:3"]),
        10,
        &retrieved,
        &fields,
        &displayed
    )
    .is_empty());
    assert!(compute_formatted_options(&strings(&["*"]), &none, 10, &retrieved, &fields, &ids(&[]))
        .is_empty());
}

#[test]
fn plan_holds_highlights_crops_and_retrieved_fields() {
    let computed = compute_formatted_options(
        &strings(&["title"]),
        &strings(&["title:4", "year"]),
        10,
        &ids(&[0, 1]),
        &fields(),
        &ids(&[0, 1, 2]),
    );
    assert_eq!(
        computed,
        plan(&[
            (0, options(true, Some(4))),
            (1, options(false, None)),
            (2, options(false, Some(10))),
        ])
    );
}

#[test]
fn dotted_paths_govern_what_lies_below_and_above() {
    assert!(is_faceted_by("doggo.name", "doggo"));
    assert!(is_faceted_by("doggo", "doggo"));
    assert!(!is_faceted_by("doggo", "doggo.name"));
    assert!(!is_faceted_by("doggos", "doggo"));
    assert!(!is_faceted_by("dog", "doggo"));
    assert!(is_faceted_by("doggo.", "doggo"));
    assert!(!is_faceted_by("a", ""));
    assert!(is_faceted_by("", ""));
    assert!(!is_faceted_by("a", "b"));
    assert!(is_faceted_by(".a", ""));
    assert!(is_faceted_by("é.à", "é"));
}

#[test]
fn leaf_options_merge_the_entries_that_govern_it() {
    let mut fields = FieldsIdsMap::new();
    let name = fields.insert("doggo.name").unwrap();
    let doggo = fields.insert("doggo").unwrap();
    let age = fields.insert("doggo.age").unwrap();
    let cat = fields.insert("cat").unwrap();
    let formatted_options = plan(&[
        (name, options(false, Some(2))),
        (doggo, options(true, Some(5))),
        (age, options(false, Some(7))),
        (cat, options(true, Some(9))),
    ]);
    assert_eq!(
        format_options_for("doggo.name", &formatted_options, &fields),
        options(true, Some(2))
    );
    assert_eq!(
        format_options_for("doggo.age", &formatted_options, &fields),
        options(true, Some(5))
    );
    assert_eq!(format_options_for("doggo", &formatted_options, &fields), options(true, Some(2)));
    assert_eq!(format_options_for("cat", &formatted_options, &fields), options(true, Some(9)));
    assert_eq!(format_options_for("cats", &formatted_options, &fields), options(false, None));
    assert_eq!(format_options_for("doggo", &plan(&[]), &fields), options(false, None));
}

#[test]
fn selectors_are_the_names_of_the_chosen_fields() {
    let fields = fields();
    assert_eq!(
        formatted_selectors(&plan(&[(2, options(true, None)), (0, options(false, None))]), &fields),
        strings(&["title", "year"])
    );
    assert_eq!(formatted_selectors(&plan(&[(9, options(true, None))]), &fields), strings(&[]));
    assert_eq!(formatted_selectors(&plan(&[]), &fields), strings(&[]));
    assert_eq!(retrieved_selectors(&ids(&[3, 1, 7]), &fields), strings(&["author", "secret"]));
    assert_eq!(retrieved_selectors(&ids(&[]), &fields), strings(&[]));
}
