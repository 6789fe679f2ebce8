use std::collections::BTreeSet;

use meilisearch_lib::query::{resolve_displayed, resolve_retrieved, restricts_facets};
use meilisearch_lib::{
    clamp_pagination, default_crop_length, default_crop_marker, default_highlight_post_tag,
    default_highlight_pre_tag, default_search_limit, geo_point_of_sorts, parse_filter,
    parse_filter_array, Clause, FieldId, FieldsIdsMap, Filter, FilterElement, FilterError,
    FilterValue, FormatOptions, GeoPoint, SearchQuery, SearchResult, DEFAULT_CROP_LENGTH,
    DEFAULT_SEARCH_LIMIT, HARD_RESULT_LIMIT,
};

fn strings(listed: &[&str]) -> Vec<String> {
    listed.iter().map(|s| s.to_string()).collect()
}

fn ids(listed: &[FieldId]) -> BTreeSet<FieldId> {
    listed.iter().copied().collect()
}

fn fields() -> FieldsIdsMap {
    let mut fields = FieldsIdsMap::new();
    for name in ["title", "author", "year"] {
        fields.insert(name).unwrap();
    }
    fields
}

fn query() -> SearchQuery {
    SearchQuery {
        q: None,
        offset: None,
        limit: default_search_limit(),
        attributes_to_retrieve: None,
        attributes_to_crop: None,
        crop_length: default_crop_length(),
        attributes_to_highlight: None,
        matches: false,
        filter: None,
        sort: None,
        facets_distribution: None,
        highlight_pre_tag: default_highlight_pre_tag(),
        highlight_post_tag: default_highlight_post_tag(),
        crop_marker: default_crop_marker(),
    }
}

#[test]
fn defaults_are_those_of_the_wire() {
    assert_eq!(default_search_limit(), 20);
    assert_eq!(DEFAULT_SEARCH_LIMIT, 20);
    assert_eq!(default_crop_length(), 10);
    assert_eq!(DEFAULT_CROP_LENGTH, 10);
    assert_eq!(HARD_RESULT_LIMIT, 1000);
    assert_eq!(default_crop_marker(), "…");
    assert_eq!(default_crop_marker(), "\u{2026}");
    assert_eq!(default_highlight_pre_tag(), "<em>");
    assert_eq!(default_highlight_post_tag(), "</em>");
}

#[test]
fn pagination_is_clamped_to_the_hard_limit() {
    assert_eq!(clamp_pagination(None, 20), (0, 20));
    assert_eq!(clamp_pagination(Some(10), 20), (10, 20));
    assert_eq!(clamp_pagination(Some(990), 20), (990, 10));
    assert_eq!(clamp_pagination(Some(1000), 20), (1000, 0));
    assert_eq!(clamp_pagination(Some(5000), 20), (1000, 0));
    assert_eq!(clamp_pagination(None, 5000), (0, 1000));
    assert_eq!(clamp_pagination(Some(usize::MAX), usize::MAX), (1000, 0));
    assert_eq!(clamp_pagination(Some(0), 0), (0, 0));
    for offset in [0usize, 1, 500, 999, 1000, 1001, usize::MAX] {
        for limit in [0usize, 1, 20, 999, 1000, 1001, usize::MAX] {
            let (served_offset, served_limit) = clamp_pagination(Some(offset), limit);
            assert!(served_offset <= 1000);
            assert!(served_limit <= 1000 - offset.min(1000));
            assert!(served_offset + served_limit <= 1000);
        }
    }
}

#[test]
fn displayed_fields_default_to_all_fields() {
    assert_eq!(resolve_displayed(None, &fields()), ids(&[0, 1, 2]));
    assert_eq!(resolve_displayed(Some(&vec![2, 0, 2]), &fields()), ids(&[0, 2]));
    assert_eq!(resolve_displayed(Some(&vec![]), &fields()), ids(&[]));
    assert_eq!(resolve_displayed(None, &FieldsIdsMap::new()), ids(&[]));
}

#[test]
fn retrieved_fields_are_displayed_fields() {
    let fields = fields();
    let displayed = ids(&[0, 1]);
    assert_eq!(resolve_retrieved(None, &fields, &displayed), ids(&[0, 1]));
    assert_eq!(resolve_retrieved(Some(&strings(&["*"])), &fields, &displayed), ids(&[0, 1]));
    assert_eq!(
        resolve_retrieved(Some(&strings(&["year", "*", "title"])), &fields, &displayed),
        ids(&[0, 1])
    );
    assert_eq!(
        resolve_retrieved(Some(&strings(&["year", "title", "editor"])), &fields, &displayed),
        ids(&[0])
    );
    assert_eq!(resolve_retrieved(Some(&strings(&[])), &fields, &displayed), ids(&[]));
}

#[test]
fn facets_are_restricted_unless_all_are_asked_for() {
    assert!(restricts_facets(&strings(&["color", "size"])));
    assert!(restricts_facets(&strings(&[])));
    assert!(!restricts_facets(&strings(&["color", "*"])));
    assert!(!restricts_facets(&strings(&["*"])));
    assert!(restricts_facets(&strings(&["**", "*."])));
}

#[test]
fn plan_of_a_request() {
    let mut asked = query();
    asked.offset = Some(995);
    asked.limit = 50;
    asked.attributes_to_retrieve = Some(strings(&["title", "year"]));
    asked.attributes_to_highlight = Some(strings(&["author"]));
    asked.attributes_to_crop = Some(strings(&["author:3", "title"]));
    asked.crop_length = 7;
    asked.highlight_pre_tag = String::from("<b>");
    asked.highlight_post_tag = String::from("</b>");
    asked.crop_marker = String::from("~");
    let plan = asked.plan(&fields(), Some(&vec![0, 1]));
    assert_eq!((plan.offset, plan.limit), (995, 5));
    assert_eq!(plan.displayed_ids, ids(&[0, 1]));
    assert_eq!(plan.to_retrieve_ids, ids(&[0]));
    let entries: Vec<(FieldId, FormatOptions)> =
        plan.formatted_options.iter().map(|(id, options)| (*id, *options)).collect();
    assert_eq!(
        entries,
        vec![
            (0, FormatOptions { highlight: false, crop: Some(7) }),
            (1, FormatOptions { highlight: true, crop: Some(3) }),
        ]
    );
    assert_eq!(
        plan.formatter.format_string(
            &meilisearch_lib::Text::new(String::new(), vec![]).unwrap(),
            &meilisearch_lib::TestMatcher::new(),
            FormatOptions { highlight: true, crop: Some(1) }
        ),
        ""
    );

    let bare = query().plan(&fields(), None);
    assert_eq!((bare.offset, bare.limit), (0, 20));
    assert_eq!(bare.displayed_ids, ids(&[0, 1, 2]));
    assert_eq!(bare.to_retrieve_ids, ids(&[0, 1, 2]));
    assert!(bare.formatted_options.is_empty());
}

#[test]
fn result_echoes_the_request_as_it_came() {
    let mut asked = query();
    asked.q = Some(String::from("hobbit"));
    asked.offset = Some(5000);
    asked.limit = 3000;
    let result: SearchResult<u8, Vec<u8>> =
        SearchResult::assemble(&asked, vec![1, 2], 12, 34, Some(vec![5]));
    assert_eq!(result.hits, vec![1, 2]);
    assert_eq!(result.nb_hits, 12);
    assert!(!result.exhaustive_nb_hits);
    assert_eq!(result.query, "hobbit");
    assert_eq!(result.limit, 3000);
    assert_eq!(result.offset, 5000);
    assert_eq!(result.processing_time_ms, 34);
    assert_eq!(result.facets_distribution, Some(vec![5]));
    assert_eq!(result.exhaustive_facets_count, Some(false));

    let bare: SearchResult<u8, Vec<u8>> = SearchResult::assemble(&query(), vec![], 0, 0, None);
    assert_eq!(bare.query, "");
    assert_eq!(bare.limit, 20);
    assert_eq!(bare.offset, 0);
    assert_eq!(bare.facets_distribution, None);
    assert_eq!(bare.exhaustive_facets_count, None);
}

fn lille() -> serde_json::Value {
    serde_json::from_str(
        r#"{
      "_geo": {
        "lat": 50.629973371633746,
        "lng": 3.0569447399419567
      },
      "city": "Lille",
      "id": "1"
    }"#,
    )
    .unwrap()
}

/// True when the point that the sort criteria name is the very point of the
/// document, so that the document lies at distance zero from it.
fn at_distance_zero(sorters: &[String], document: &serde_json::Value) -> Option<bool> {
    let point = geo_point_of_sorts(&sorters.to_vec())?;
    let base: [f64; 2] = [point.lat.parse().unwrap(), point.lng.parse().unwrap()];
    let lat = document["_geo"]["lat"].as_f64().unwrap();
    let lng = document["_geo"]["lng"].as_f64().unwrap();
    Some(base == [lat, lng])
}

#[test]
fn test_insert_geo_distance() {
    let value = lille();

    let sorters = &["_geoPoint(50.629973371633746,3.0569447399419567):desc".to_string()];
    assert_eq!(at_distance_zero(sorters, &value), Some(true));

    let sorters = &["_geoPoint(50.629973371633746, 3.0569447399419567):asc".to_string()];
    assert_eq!(at_distance_zero(sorters, &value), Some(true));

    let sorters =
        &["_geoPoint(   50.629973371633746   ,  3.0569447399419567   ):desc".to_string()];
    assert_eq!(at_distance_zero(sorters, &value), Some(true));

    let sorters = &[
        "prix:asc",
        "villeneuve:desc",
        "_geoPoint(50.629973371633746, 3.0569447399419567):asc",
        "ubu:asc",
    ]
    .map(|s| s.to_string());
    assert_eq!(at_distance_zero(sorters, &value), Some(true));

    // only the first geoPoint is used to compute the distance
    let sorters = &[
        "chien:desc",
        "_geoPoint(50.629973371633746, 3.0569447399419567):asc",
        "pangolin:desc",
        "_geoPoint(100.0, -80.0):asc",
        "chat:asc",
    ]
    .map(|s| s.to_string());
    assert_eq!(at_distance_zero(sorters, &value), Some(true));
    assert_eq!(
        geo_point_of_sorts(&sorters.to_vec()),
        Some(GeoPoint {
            lat: String::from("50.629973371633746"),
            lng: String::from("3.0569447399419567"),
        })
    );

    // there was no _geoPoint so nothing is inserted in the document
    let sorters = &["chien:asc".to_string()];
    assert_eq!(at_distance_zero(sorters, &value), None);
}

#[test]
fn geo_point_is_found_anywhere_in_a_criterion() {
    assert_eq!(
        geo_point_of_sorts(&strings(&["x_geoPoint(-1.5,.2)y"])),
        Some(GeoPoint { lat: String::from("-1.5"), lng: String::from(".2") })
    );
    let none = strings(&["_geoPoint(1,2", "_geopoint(1,2)", "_geoPoint(a,2)"]);
    assert_eq!(geo_point_of_sorts(&none), None);
    assert_eq!(geo_point_of_sorts(&strings(&[])), None);
}

#[test]
fn filter_shapes() {
    assert_eq!(
        parse_filter(&FilterValue::String(String::from("a = 1"))),
        Ok(Filter::Expression(String::from("a = 1")))
    );
    assert_eq!(parse_filter(&FilterValue::Other), Err(FilterError::ExpectedArray));
    assert_eq!(parse_filter(&FilterValue::Array(vec![])), Ok(Filter::Clauses(vec![])));
    let array = vec![
        FilterElement::String(String::from("a = 1")),
        FilterElement::Array(vec![Some(String::from("b = 2")), Some(String::from("c = 3"))]),
        FilterElement::Array(vec![]),
    ];
    let clauses = || {
        vec![
            Clause::One(String::from("a = 1")),
            Clause::AnyOf(vec![String::from("b = 2"), String::from("c = 3")]),
            Clause::AnyOf(vec![]),
        ]
    };
    assert_eq!(parse_filter_array(&array), Ok(clauses()));
    assert_eq!(parse_filter(&FilterValue::Array(array)), Ok(Filter::Clauses(clauses())));
}

#[test]
fn filter_errors_name_the_first_wrong_value() {
    let array = vec![
        FilterElement::String(String::from("a = 1")),
        FilterElement::Array(vec![Some(String::from("b = 2")), None, None]),
        FilterElement::Other,
    ];
    assert_eq!(parse_filter_array(&array), Err(FilterError::ExpectedString { at: 1, inner: 1 }));
    assert_eq!(
        parse_filter(&FilterValue::Array(array)),
        Err(FilterError::ExpectedString { at: 1, inner: 1 })
    );
    let array =
        vec![FilterElement::Array(vec![]), FilterElement::Other, FilterElement::Array(vec![None])];
    assert_eq!(parse_filter_array(&array), Err(FilterError::ExpectedStringOrStrings { at: 1 }));

    assert_eq!(FilterError::ExpectedArray.expected(), strings(&["Array"]));
    assert_eq!(FilterError::ExpectedArray.path(), Vec::<usize>::new());
    let error = FilterError::ExpectedStringOrStrings { at: 4 };
    assert_eq!(error.expected(), strings(&["String", "[String]"]));
    assert_eq!(error.path(), vec![4]);
    let error = FilterError::ExpectedString { at: 4, inner: 2 };
    assert_eq!(error.expected(), strings(&["String"]));
    assert_eq!(error.path(), vec![4, 2]);
}
