//! Default values of a search request and the absolute cap on results.

use vstd::prelude::*;
use vstd::string::StringExecFns;

verus! {

/// Page size used when a request gives none.
pub const DEFAULT_SEARCH_LIMIT: usize = 20;

/// Crop budget, in words, used when a cropped attribute carries none.
pub const DEFAULT_CROP_LENGTH: usize = 10;

/// The maximum number of results that one search call can return,
/// offset included.
pub const HARD_RESULT_LIMIT: usize = 1000;

/// The characters of the default crop marker: one horizontal ellipsis.
pub open spec fn default_crop_marker_text() -> Seq<char> {
    seq!['\u{2026}']
}

/// The characters of the default opening highlight tag.
pub open spec fn default_highlight_pre_tag_text() -> Seq<char> {
    seq!['<', 'e', 'm', '>']
}

/// The characters of the default closing highlight tag.
pub open spec fn default_highlight_post_tag_text() -> Seq<char> {
    seq!['<', '/', 'e', 'm', '>']
}

pub fn default_search_limit() -> (limit: usize)
    ensures
        limit == DEFAULT_SEARCH_LIMIT,
        limit == 20,
{
    DEFAULT_SEARCH_LIMIT
}

pub fn default_crop_length() -> (length: usize)
    ensures
        length == DEFAULT_CROP_LENGTH,
        length == 10,
{
    DEFAULT_CROP_LENGTH
}

pub fn default_crop_marker() -> (marker: String)
    ensures
        marker@ == default_crop_marker_text(),
{
    proof {
        reveal_strlit("\u{2026}");
    }
    let marker = String::from_str("\u{2026}");
    assert(marker@ =~= default_crop_marker_text());
    marker
}

pub fn default_highlight_pre_tag() -> (tag: String)
    ensures
        tag@ == default_highlight_pre_tag_text(),
{
    proof {
        reveal_strlit("<em>");
    }
    let tag = String::from_str("<em>");
    assert(tag@ =~= default_highlight_pre_tag_text());
    tag
}

pub fn default_highlight_post_tag() -> (tag: String)
    ensures
        tag@ == default_highlight_post_tag_text(),
{
    proof {
        reveal_strlit("</em>");
    }
    let tag = String::from_str("</em>");
    assert(tag@ =~= default_highlight_post_tag_text());
    tag
}

} // verus!
