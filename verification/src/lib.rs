//! Search result formatting: highlighting and cropping of field values,
//! match offsets, format plans and the decisions of a search request.

pub mod crop;
pub mod defaults;
pub mod document;
pub mod fields;
pub mod filter;
pub mod formatter;
pub mod geo;
pub mod ids;
pub mod matcher;
pub mod matches;
pub mod matches_info;
pub mod options;
pub mod plan;
pub mod query;
pub mod selection;
pub mod text;
pub mod token;
pub mod value;

pub use defaults::{
    default_crop_length, default_crop_marker, default_highlight_post_tag,
    default_highlight_pre_tag, default_search_limit, DEFAULT_CROP_LENGTH, DEFAULT_SEARCH_LIMIT,
    HARD_RESULT_LIMIT,
};
pub use document::Document;
pub use fields::{FieldId, FieldsIdsMap};
pub use filter::{
    parse_filter, parse_filter_array, Clause, Filter, FilterElement, FilterError, FilterValue,
};
pub use formatter::Formatter;
pub use geo::{geo_point_of_sorts, GeoPoint};
pub use matcher::{IndexMatcher, Matcher, TestMatcher};
pub use matches::{compute_matches, compute_value_matches, MatchInfo};
pub use matches_info::{FieldMatches, MatchesInfo};
pub use options::FormatOptions;
pub use plan::{
    add_crop_to_formatted_options, add_highlight_to_formatted_options,
    add_non_formatted_ids_to_formatted_options, compute_formatted_options,
};
pub use query::{clamp_pagination, SearchPlan, SearchQuery, SearchResult};
pub use selection::{
    format_leaf, format_options_for, formatted_selectors, is_faceted_by, retrieved_selectors,
};
pub use text::Text;
pub use token::{Token, TokenKind};
pub use value::{Field, Formatted, FormattedField, Value};
