//! Geo sorting: finding, among the sort criteria of a request, the point
//! from which distances are measured.

use crate::fields::name_views;
use regex::Regex;
use vstd::prelude::*;

verus! {

/// The pattern of a geo sort criterion: `_geoPoint(`, a latitude, a comma, a
/// longitude and `)`, with optional white space around the two numbers. Each
/// number is a run of digits, dots and minus signs, and is captured.
pub open spec fn geo_pattern_text() -> Seq<char> {
    r"_geoPoint\(\s*([[:digit:].\-]+)\s*,\s*([[:digit:].\-]+)\s*\)"@
}

/// The pattern of a geo sort criterion.
pub fn geo_pattern() -> (pattern: &'static str)
    ensures
        pattern@ == geo_pattern_text(),
{
    r"_geoPoint\(\s*([[:digit:].\-]+)\s*,\s*([[:digit:].\-]+)\s*\)"
}

/// What the first match of a regular expression in a text captures: one
/// entry for each group of the pattern, the whole match first, each with the
/// text that it matched, if it took part in the match. `None` when the
/// pattern matches nowhere in the text, or is no valid pattern.
pub uninterp spec fn captured_groups(pattern: Seq<char>, text: Seq<char>) -> Option<
    Seq<Option<Seq<char>>>,
>;

/// Compiles `pattern` with `Regex::new` of the regex crate, searches `text`
/// for its first match with `Regex::captures`, and hands out the text of
/// each group of that match. Both depend on the pattern and the text alone.
#[verifier::external_body]
fn capture_groups(pattern: &str, text: &str) -> (groups: Option<Vec<Option<String>>>)
    ensures
        groups is Some <==> captured_groups(pattern@, text@) is Some,
        groups is Some ==> groups->0@.len() == captured_groups(pattern@, text@)->0.len(),
        groups is Some ==> forall|i: int|
            0 <= i < groups->0@.len() ==> match (#[trigger] groups->0@[i]) {
                Some(group) => captured_groups(pattern@, text@)->0[i] == Some(group@),
                None => captured_groups(pattern@, text@)->0[i] is None,
            },
{
    let regex = Regex::new(pattern).ok()?;
    let captures = regex.captures(text)?;
    Some(captures.iter().map(|group| group.map(|found| found.as_str().to_string())).collect())
}

/// A point on the globe, as the sort criterion writes it.
#[derive(Debug, PartialEq, Eq)]
pub struct GeoPoint {
    pub lat: String,
    pub lng: String,
}

/// The mathematical value of a [`GeoPoint`].
pub struct GeoPointView {
    pub lat: Seq<char>,
    pub lng: Seq<char>,
}

impl View for GeoPoint {
    type V = GeoPointView;

    open spec fn view(&self) -> GeoPointView {
        GeoPointView { lat: self.lat@, lng: self.lng@ }
    }
}

/// The point that the groups of a match hold: the first captured group is
/// the latitude, the second the longitude.
pub open spec fn point_in(groups: Seq<Option<Seq<char>>>) -> Option<GeoPointView> {
    if groups.len() >= 3 && groups[1] is Some && groups[2] is Some {
        Some(GeoPointView { lat: groups[1]->0, lng: groups[2]->0 })
    } else {
        None
    }
}

/// The point of the first criterion, at or after `from`, that holds a geo
/// sort. Later geo sorts are not looked at.
pub open spec fn first_geo_point(sorts: Seq<Seq<char>>, from: int) -> Option<GeoPointView>
    decreases sorts.len() - from,
{
    if from < 0 || from >= sorts.len() {
        None
    } else {
        match captured_groups(geo_pattern_text(), sorts[from]) {
            Some(groups) => point_in(groups),
            None => first_geo_point(sorts, from + 1),
        }
    }
}

/// The point that the groups of a match hold.
pub fn geo_point_of_groups(groups: &Vec<Option<String>>) -> (point: Option<GeoPoint>)
    ensures
        point is Some <==> groups@.len() >= 3 && groups@[1] is Some && groups@[2] is Some,
        point is Some ==> point->0@ == (GeoPointView {
            lat: groups@[1]->0@,
            lng: groups@[2]->0@,
        }),
{
    if groups.len() < 3 {
        return None;
    }
    match (&groups[1], &groups[2]) {
        (Some(lat), Some(lng)) => Some(GeoPoint { lat: lat.clone(), lng: lng.clone() }),
        _ => None,
    }
}

/// The point from which a request sorts by distance: that of the first sort
/// criterion that holds a geo sort, if there is one.
pub fn geo_point_of_sorts(sorts: &Vec<String>) -> (point: Option<GeoPoint>)
    ensures
        match point {
            Some(found) => first_geo_point(name_views(sorts@), 0) == Some(found@),
            None => first_geo_point(name_views(sorts@), 0) is None,
        },
{
    let ghost views = name_views(sorts@);
    let mut i: usize = 0;
    while i < sorts.len()
        invariant
            i <= sorts.len(),
            views == name_views(sorts@),
            first_geo_point(views, 0) == first_geo_point(views, i as int),
        decreases sorts.len() - i,
    {
        match capture_groups(geo_pattern(), sorts[i].as_str()) {
            Some(groups) => {
                let point = geo_point_of_groups(&groups);
                proof {
                    let named = captured_groups(geo_pattern_text(), views[i as int])->0;
                    assert(named.len() == groups@.len());
                    if groups@.len() >= 3 {
                        assert(groups@[1] is Some <==> named[1] is Some);
                        assert(groups@[2] is Some <==> named[2] is Some);
                    }
                }
                return point;
            },
            None => {},
        }
        i += 1;
    }
    None
}

} // verus!
