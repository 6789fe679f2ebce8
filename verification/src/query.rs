//! A search request and the decisions that follow from it before and after
//! the index is asked: the page served, the fields displayed, retrieved and
//! formatted, the facets counted, and the header of the result.

use crate::defaults::HARD_RESULT_LIMIT;
use crate::fields::{id_space, name_views, FieldId, FieldsIdsMap};
use crate::filter::FilterValue;
use crate::formatter::{Formatter, FormatterView};
use crate::matcher::Matcher;
use crate::document::{document_fields, Document};
use crate::ids::{holds, lemma_listed_all, listed_upto, put};
use crate::matches::{compute_matches, document_matches};
use crate::matches_info::MatchesInfo;
use crate::options::FormatOptions;
use crate::plan::{
    attribute_targets, compute_formatted_options, formatted_options,
    lemma_formatted_options_domain, named_among, star,
};
use std::collections::{BTreeMap, BTreeSet};
use vstd::prelude::*;
use vstd::string::StringExecFns;

verus! {

/// A search request.
#[derive(Debug)]
pub struct SearchQuery {
    pub q: Option<String>,
    pub offset: Option<usize>,
    pub limit: usize,
    pub attributes_to_retrieve: Option<Vec<String>>,
    pub attributes_to_crop: Option<Vec<String>>,
    pub crop_length: usize,
    pub attributes_to_highlight: Option<Vec<String>>,
    pub matches: bool,
    pub filter: Option<FilterValue>,
    pub sort: Option<Vec<String>>,
    pub facets_distribution: Option<Vec<String>>,
    pub highlight_pre_tag: String,
    pub highlight_post_tag: String,
    pub crop_marker: String,
}

/// The smaller of two numbers.
pub open spec fn least(a: int, b: int) -> int {
    if a <= b {
        a
    } else {
        b
    }
}

/// The offset that is served: the one asked for, or zero, capped at the
/// hard limit.
pub open spec fn served_offset(offset: Option<usize>) -> int {
    least(
        match offset {
            Some(offset) => offset as int,
            None => 0,
        },
        HARD_RESULT_LIMIT as int,
    )
}

/// The page size that is served: the one asked for, capped so that offset
/// and page together stay within the hard limit.
pub open spec fn served_limit(offset: Option<usize>, limit: usize) -> int {
    least(limit as int, HARD_RESULT_LIMIT - served_offset(offset))
}

/// The offset and the page size that are served for those asked for.
pub fn clamp_pagination(offset: Option<usize>, limit: usize) -> (page: (usize, usize))
    ensures
        page.0 == served_offset(offset),
        page.1 == served_limit(offset, limit),
        page.0 <= 1000,
        page.1 <= 1000 - page.0,
        page.1 <= limit,
{
    let asked = match offset {
        Some(offset) => offset,
        None => 0,
    };
    let offset = if asked < HARD_RESULT_LIMIT {
        asked
    } else {
        HARD_RESULT_LIMIT
    };
    let room = HARD_RESULT_LIMIT - offset;
    let limit = if limit < room {
        limit
    } else {
        room
    };
    (offset, limit)
}

/// The identifiers below `bound`.
pub open spec fn ids_below(bound: int) -> Set<FieldId> {
    Set::new(|id: FieldId| id < bound)
}

/// The fields that may be shown: those configured, or every known field
/// when nothing is configured.
pub fn resolve_displayed(
    configured: Option<&Vec<FieldId>>,
    fields_ids_map: &FieldsIdsMap,
) -> (displayed: BTreeSet<FieldId>)
    ensures
        displayed@ == match configured {
            Some(listed) => listed@.to_set(),
            None => ids_below(fields_ids_map@.len() as int),
        },
{
    let mut displayed: BTreeSet<FieldId> = BTreeSet::new();
    match configured {
        Some(listed) => {
            let mut i: usize = 0;
            assert(displayed@ =~= listed_upto(listed@, 0));
            while i < listed.len()
                invariant
                    i <= listed.len(),
                    displayed@ == listed_upto(listed@, i as int),
                decreases listed.len() - i,
            {
                put(&mut displayed, listed[i]);
                i += 1;
                assert(displayed@ =~= listed_upto(listed@, i as int));
            }
            proof {
                lemma_listed_all(listed@);
            }
        },
        None => {
            let len = fields_ids_map.len();
            let mut i: usize = 0;
            assert(displayed@ =~= ids_below(0));
            while i < len
                invariant
                    i <= len,
                    len <= id_space(),
                    displayed@ == ids_below(i as int),
                decreases len - i,
            {
                put(&mut displayed, i as u16);
                i += 1;
                assert(displayed@ =~= ids_below(i as int));
            }
        },
    }
    displayed
}

/// The fields that are retrieved: the displayed fields that the request
/// names, every displayed field when it names `*`, and every displayed field
/// when it names nothing.
pub open spec fn retrieved(
    attributes: Option<Seq<Seq<char>>>,
    names: Seq<Seq<char>>,
    displayed: Set<FieldId>,
) -> Set<FieldId> {
    match attributes {
        Some(attrs) => attribute_targets(attrs, names, displayed),
        None => displayed,
    }
}

/// The fields to retrieve.
pub fn resolve_retrieved(
    attributes: Option<&Vec<String>>,
    fields_ids_map: &FieldsIdsMap,
    displayed_ids: &BTreeSet<FieldId>,
) -> (ids: BTreeSet<FieldId>)
    ensures
        ids@ == retrieved(
            match attributes {
                Some(attrs) => Some(name_views(attrs@)),
                None => None,
            },
            fields_ids_map@,
            displayed_ids@,
        ),
        ids@.subset_of(displayed_ids@),
{
    let attrs = match attributes {
        Some(attrs) => attrs,
        None => {
            return displayed_ids.clone();
        },
    };
    let ghost views = name_views(attrs@);
    let ghost names = fields_ids_map@;
    let ghost displayed = displayed_ids@;
    let all = String::from_str("*");
    proof {
        reveal_strlit("*");
        assert(all@ =~= star());
    }
    let mut ids: BTreeSet<FieldId> = BTreeSet::new();
    let mut i: usize = 0;
    assert(ids@ =~= named_among(views, 0, names, displayed));
    while i < attrs.len()
        invariant
            i <= attrs.len(),
            all@ == star(),
            attributes == Some(attrs),
            views == name_views(attrs@),
            names == fields_ids_map@,
            displayed == displayed_ids@,
            forall|k: int| 0 <= k < i ==> views[k] != star(),
            ids@ == named_among(views, i as int, names, displayed),
        decreases attrs.len() - i,
    {
        if attrs[i] == all {
            assert(views[i as int] == star());
            assert(views.contains(star()));
            return displayed_ids.clone();
        }
        match fields_ids_map.id(attrs[i].as_str()) {
            Some(id) => {
                if holds(displayed_ids, id) {
                    put(&mut ids, id);
                }
            },
            None => {},
        }
        i += 1;
        proof {
            let grown = named_among(views, i as int, names, displayed);
            let earlier = named_among(views, i as int - 1, names, displayed);
            assert forall|id: FieldId| grown.contains(id) <==> earlier.contains(id) || (
            displayed.contains(id) && id < names.len() && names[id as int] == views[i as int
                - 1]) by {
                if grown.contains(id) {
                    let k = choose|k: int|
                        0 <= k < i && k < views.len() && #[trigger] views[k] == names[id as int];
                    if k < i - 1 {
                        assert(earlier.contains(id));
                    }
                }
                if earlier.contains(id) {
                    let k = choose|k: int|
                        0 <= k < i - 1 && k < views.len() && #[trigger] views[k]
                            == names[id as int];
                    assert(views[k] == names[id as int]);
                }
                if displayed.contains(id) && id < names.len() && names[id as int] == views[i as int
                    - 1] {
                    assert(views[i as int - 1] == names[id as int]);
                }
            }
            assert(ids@ =~= grown);
        }
    }
    proof {
        assert(!views.contains(star()));
    }
    ids
}

/// True when the facet distribution is counted for the listed fields only:
/// when none of them is `*`.
pub fn restricts_facets(fields: &Vec<String>) -> (restricted: bool)
    ensures
        restricted == !name_views(fields@).contains(star()),
{
    let all = String::from_str("*");
    proof {
        reveal_strlit("*");
        assert(all@ =~= star());
    }
    let mut i: usize = 0;
    while i < fields.len()
        invariant
            i <= fields.len(),
            all@ == star(),
            forall|k: int| 0 <= k < i ==> name_views(fields@)[k] != star(),
        decreases fields.len() - i,
    {
        if fields[i] == all {
            assert(name_views(fields@)[i as int] == star());
            return false;
        }
        i += 1;
    }
    true
}

/// What is settled for a request before the index is asked and the hits
/// are formatted.
#[derive(Debug)]
pub struct SearchPlan {
    /// The offset handed to the index.
    pub offset: usize,
    /// The page size handed to the index.
    pub limit: usize,
    /// The fields that may be shown.
    pub displayed_ids: BTreeSet<FieldId>,
    /// The fields of each hit's document.
    pub to_retrieve_ids: BTreeSet<FieldId>,
    /// The fields of each hit's formatted document, and how each is formatted.
    pub formatted_options: BTreeMap<FieldId, FormatOptions>,
    /// The formatter of the request, with its tags and its crop marker.
    pub formatter: Formatter,
}

/// The attributes of an optional list, none when the list is absent.
pub open spec fn listed_or_none(attributes: Option<Vec<String>>) -> Seq<Seq<char>> {
    match attributes {
        Some(attrs) => name_views(attrs@),
        None => Seq::empty(),
    }
}

impl SearchQuery {
    /// The fields that the request retrieves among `displayed`.
    pub open spec fn retrieved_among(self, names: Seq<Seq<char>>, displayed: Set<FieldId>) -> Set<
        FieldId,
    > {
        retrieved(
            match self.attributes_to_retrieve {
                Some(attrs) => Some(name_views(attrs@)),
                None => None,
            },
            names,
            displayed,
        )
    }

    /// Settles the page, the field sets, the format plan and the formatter
    /// of the request. `configured` lists the fields that the index is set
    /// to display, if it is set to display only some.
    pub fn plan(&self, fields_ids_map: &FieldsIdsMap, configured: Option<&Vec<FieldId>>) -> (plan:
        SearchPlan)
        ensures
            plan.offset == served_offset(self.offset),
            plan.limit == served_limit(self.offset, self.limit),
            plan.displayed_ids@ == match configured {
                Some(listed) => listed@.to_set(),
                None => ids_below(fields_ids_map@.len() as int),
            },
            plan.to_retrieve_ids@ == self.retrieved_among(fields_ids_map@, plan.displayed_ids@),
            plan.to_retrieve_ids@.subset_of(plan.displayed_ids@),
            plan.formatted_options@ == formatted_options(
                listed_or_none(self.attributes_to_highlight),
                listed_or_none(self.attributes_to_crop),
                self.crop_length,
                plan.to_retrieve_ids@,
                fields_ids_map@,
                plan.displayed_ids@,
            ),
            forall|id: FieldId| #[trigger]
                plan.formatted_options@.contains_key(id) ==> plan.displayed_ids@.contains(id),
            plan.formatter@ == (FormatterView {
                pre_tag: self.highlight_pre_tag@,
                post_tag: self.highlight_post_tag@,
                crop_marker: self.crop_marker@,
            }),
    {
        let (offset, limit) = clamp_pagination(self.offset, self.limit);
        let displayed_ids = resolve_displayed(configured, fields_ids_map);
        let to_retrieve_ids = resolve_retrieved(
            self.attributes_to_retrieve.as_ref(),
            fields_ids_map,
            &displayed_ids,
        );
        let nothing: Vec<String> = Vec::new();
        assert(name_views(nothing@) =~= Seq::<Seq<char>>::empty());
        let attr_to_highlight = match &self.attributes_to_highlight {
            Some(attrs) => attrs,
            None => &nothing,
        };
        let attr_to_crop = match &self.attributes_to_crop {
            Some(attrs) => attrs,
            None => &nothing,
        };
        let formatted_options = compute_formatted_options(
            attr_to_highlight,
            attr_to_crop,
            self.crop_length,
            &to_retrieve_ids,
            fields_ids_map,
            &displayed_ids,
        );
        proof {
            lemma_formatted_options_domain(
                name_views(attr_to_highlight@),
                name_views(attr_to_crop@),
                self.crop_length,
                to_retrieve_ids@,
                fields_ids_map@,
                displayed_ids@,
            );
        }
        let formatter = Formatter::new(
            (self.highlight_pre_tag.clone(), self.highlight_post_tag.clone()),
            self.crop_marker.clone(),
        );
        SearchPlan { offset, limit, displayed_ids, to_retrieve_ids, formatted_options, formatter }
    }

    /// The matches of a hit's document, computed only when the request asks
    /// for them.
    pub fn matches_of<M: Matcher>(&self, matcher: &M, document: &Document) -> (matches: Option<
        MatchesInfo,
    >)
        ensures
            matches is Some <==> self.matches,
            matches is Some ==> matches->0.wf() && matches->0@ == document_matches(
                document_fields(*document),
                document_fields(*document).len() as int,
                matcher,
            ),
    {
        if self.matches {
            Some(compute_matches(matcher, document))
        } else {
            None
        }
    }
}

/// The result of a search.
#[derive(Debug)]
pub struct SearchResult<H, F> {
    pub hits: Vec<H>,
    pub nb_hits: u64,
    pub exhaustive_nb_hits: bool,
    pub query: String,
    pub limit: usize,
    pub offset: usize,
    pub processing_time_ms: u128,
    pub facets_distribution: Option<F>,
    pub exhaustive_facets_count: Option<bool>,
}

impl<H, F> SearchResult<H, F> {
    /// Puts a result together. The query text, the limit and the offset are
    /// those of the request as it came, not those served; neither count is
    /// exhaustive.
    pub fn assemble(
        query: &SearchQuery,
        hits: Vec<H>,
        nb_hits: u64,
        processing_time_ms: u128,
        facets_distribution: Option<F>,
    ) -> (result: Self)
        ensures
            result.hits == hits,
            result.nb_hits == nb_hits,
            !result.exhaustive_nb_hits,
            result.query@ == match query.q {
                Some(text) => text@,
                None => Seq::empty(),
            },
            result.limit == query.limit,
            result.offset == match query.offset {
                Some(offset) => offset,
                None => 0,
            },
            result.processing_time_ms == processing_time_ms,
            result.facets_distribution == facets_distribution,
            result.exhaustive_facets_count == if facets_distribution is Some {
                Some(false)
            } else {
                None
            },
    {
        let text = match &query.q {
            Some(text) => text.clone(),
            None => String::new(),
        };
        let offset = match query.offset {
            Some(offset) => offset,
            None => 0,
        };
        let exhaustive_facets_count = match &facets_distribution {
            Some(_) => Some(false),
            None => None,
        };
        SearchResult {
            hits,
            nb_hits,
            exhaustive_nb_hits: false,
            query: text,
            limit: query.limit,
            offset,
            processing_time_ms,
            facets_distribution,
            exhaustive_facets_count,
        }
    }
}

} // verus!
