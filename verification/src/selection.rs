//! From a format plan to the fields of a document: the names by which the
//! planned fields are selected, and the options that govern a leaf at a
//! given dotted path.

use crate::fields::{id_space, name_views, FieldId, FieldsIdsMap};
use crate::formatter::{formatted_value, Formatter};
use crate::ids::holds;
use crate::matcher::Matcher;
use crate::options::FormatOptions;
use crate::value::{Formatted, Value};
use crate::plan::Plan;
use std::collections::{BTreeMap, BTreeSet};
use vstd::prelude::*;
use vstd::string::{StrSliceExecFns, StringExecFns};

verus! {

/// True when `field` is `facet` itself or lies below it: `facet` is a prefix
/// of `field`, and what follows it in `field`, if anything, starts with a dot.
pub open spec fn faceted_by(field: Seq<char>, facet: Seq<char>) -> bool {
    &&& facet.is_prefix_of(field)
    &&& (field.len() == facet.len() || field[facet.len() as int] == '.')
}

/// True when a plan entry for the field `name` governs the leaf at `key`:
/// one of the two dotted paths is a prefix of the other.
pub open spec fn governs(name: Seq<char>, key: Seq<char>) -> bool {
    faceted_by(name, key) || faceted_by(key, name)
}

/// The options that the plan entries of the first `upto` fields give to the
/// leaf at `key`: those of the entries that govern it, merged in the order
/// of their identifiers.
pub open spec fn merged_upto(
    plan: Plan,
    names: Seq<Seq<char>>,
    key: Seq<char>,
    upto: int,
) -> FormatOptions
    decreases upto,
{
    if upto <= 0 {
        FormatOptions::none()
    } else {
        let earlier = merged_upto(plan, names, key, upto - 1);
        if plan.contains_key((upto - 1) as FieldId) && governs(names[upto - 1], key) {
            earlier.merged(plan[(upto - 1) as FieldId])
        } else {
            earlier
        }
    }
}

/// The options that a plan gives to the leaf at `key`.
pub open spec fn leaf_options(plan: Plan, names: Seq<Seq<char>>, key: Seq<char>) -> FormatOptions {
    merged_upto(plan, names, key, names.len() as int)
}

/// The names of those among the first `upto` fields that are in `ids`, in
/// the order of their identifiers.
pub open spec fn names_upto(ids: Set<FieldId>, names: Seq<Seq<char>>, upto: int) -> Seq<Seq<char>>
    decreases upto,
{
    if upto <= 0 {
        Seq::empty()
    } else if ids.contains((upto - 1) as FieldId) {
        names_upto(ids, names, upto - 1).push(names[upto - 1])
    } else {
        names_upto(ids, names, upto - 1)
    }
}

/// No field is selected for an empty set of identifiers: with an empty
/// plan, nothing is selected for formatting.
pub proof fn lemma_no_ids_no_names(names: Seq<Seq<char>>, upto: int)
    ensures
        names_upto(Set::<FieldId>::empty(), names, upto) == Seq::<Seq<char>>::empty(),
    decreases upto,
{
    if upto > 0 {
        lemma_no_ids_no_names(names, upto - 1);
    }
}

/// An empty plan gives no options to any leaf.
pub proof fn lemma_empty_plan_gives_none(names: Seq<Seq<char>>, key: Seq<char>, upto: int)
    ensures
        merged_upto(Map::<FieldId, FormatOptions>::empty(), names, key, upto)
            == FormatOptions::none(),
    decreases upto,
{
    if upto > 0 {
        lemma_empty_plan_gives_none(names, key, upto - 1);
    }
}

/// True when `field` is `facet` or lies below it as a dotted path.
pub fn is_faceted_by(field: &str, facet: &str) -> (faceted: bool)
    ensures
        faceted == faceted_by(field@, facet@),
{
    let field_len = field.unicode_len();
    let facet_len = facet.unicode_len();
    if facet_len > field_len {
        return false;
    }
    let mut i: usize = 0;
    while i < facet_len
        invariant
            i <= facet_len <= field_len,
            facet_len == facet@.len(),
            field_len == field@.len(),
            forall|k: int| 0 <= k < i ==> field@[k] == facet@[k],
        decreases facet_len - i,
    {
        if field.get_char(i) != facet.get_char(i) {
            return false;
        }
        i += 1;
    }
    assert(facet@.is_prefix_of(field@)) by {
        assert(field@.subrange(0, facet@.len() as int) =~= facet@);
    }
    if field_len == facet_len {
        true
    } else {
        field.get_char(facet_len) == '.'
    }
}

/// The entry of `id` in a plan, if it has one.
fn entry_of(plan: &BTreeMap<FieldId, FormatOptions>, id: FieldId) -> (entry: Option<FormatOptions>)
    ensures
        entry is Some <==> plan@.contains_key(id),
        entry is Some ==> entry->0 == plan@[id],
{
    broadcast use vstd::laws_cmp::group_laws_cmp;

    match plan.get(&id) {
        Some(options) => Some(*options),
        None => None,
    }
}

/// The options that govern the leaf at the dotted path `key`: those of all
/// plan entries whose field is a prefix of the path or lies below it, merged
/// in the order of their identifiers.
pub fn format_options_for(
    key: &str,
    formatted_options: &BTreeMap<FieldId, FormatOptions>,
    fields_ids_map: &FieldsIdsMap,
) -> (options: FormatOptions)
    ensures
        options == leaf_options(formatted_options@, fields_ids_map@, key@),
{
    let len = fields_ids_map.len();
    let mut options = FormatOptions { highlight: false, crop: None };
    let mut i: usize = 0;
    while i < len
        invariant
            i <= len,
            len == fields_ids_map@.len(),
            len <= id_space(),
            options == merged_upto(formatted_options@, fields_ids_map@, key@, i as int),
        decreases len - i,
    {
        let id = i as u16;
        if let Some(entry) = entry_of(formatted_options, id) {
            if let Some(name) = fields_ids_map.name(id) {
                if is_faceted_by(name, key) || is_faceted_by(key, name) {
                    options = options.merge(entry);
                }
            }
        }
        i += 1;
    }
    options
}

/// Formats the leaf that stands at the dotted path `key` of a document: the
/// leaf is formatted with the options that the plan gives to that path.
pub fn format_leaf<M: Matcher>(
    key: &str,
    value: &Value,
    formatter: &Formatter,
    matcher: &M,
    formatted_options: &BTreeMap<FieldId, FormatOptions>,
    fields_ids_map: &FieldsIdsMap,
) -> (formatted: Formatted)
    ensures
        formatted@ == formatted_value(
            value@,
            matcher,
            leaf_options(formatted_options@, fields_ids_map@, key@),
            formatter@,
        ),
{
    let format = format_options_for(key, formatted_options, fields_ids_map);
    formatter.format_value(value, matcher, format)
}

/// The names of the fields of a plan, in the order of their identifiers:
/// the selectors of the formatted document.
pub fn formatted_selectors(
    formatted_options: &BTreeMap<FieldId, FormatOptions>,
    fields_ids_map: &FieldsIdsMap,
) -> (selectors: Vec<String>)
    ensures
        name_views(selectors@) == names_upto(
            formatted_options@.dom(),
            fields_ids_map@,
            fields_ids_map@.len() as int,
        ),
{
    let len = fields_ids_map.len();
    let mut selectors: Vec<String> = Vec::new();
    let mut i: usize = 0;
    assert(name_views(selectors@) =~= names_upto(
        formatted_options@.dom(),
        fields_ids_map@,
        0,
    ));
    while i < len
        invariant
            i <= len,
            len == fields_ids_map@.len(),
            len <= id_space(),
            name_views(selectors@) == names_upto(
                formatted_options@.dom(),
                fields_ids_map@,
                i as int,
            ),
        decreases len - i,
    {
        let id = i as u16;
        if entry_of(formatted_options, id).is_some() {
            if let Some(name) = fields_ids_map.name(id) {
                selectors.push(String::from_str(name));
            }
        }
        i += 1;
        assert(name_views(selectors@) =~= names_upto(
            formatted_options@.dom(),
            fields_ids_map@,
            i as int,
        ));
    }
    selectors
}

/// The names of the fields to retrieve, in the order of their identifiers:
/// the selectors of the retrieved document.
pub fn retrieved_selectors(
    to_retrieve_ids: &BTreeSet<FieldId>,
    fields_ids_map: &FieldsIdsMap,
) -> (selectors: Vec<String>)
    ensures
        name_views(selectors@) == names_upto(
            to_retrieve_ids@,
            fields_ids_map@,
            fields_ids_map@.len() as int,
        ),
{
    let len = fields_ids_map.len();
    let mut selectors: Vec<String> = Vec::new();
    let mut i: usize = 0;
    assert(name_views(selectors@) =~= names_upto(
        to_retrieve_ids@,
        fields_ids_map@,
        0,
    ));
    while i < len
        invariant
            i <= len,
            len == fields_ids_map@.len(),
            len <= id_space(),
            name_views(selectors@) == names_upto(
                to_retrieve_ids@,
                fields_ids_map@,
                i as int,
            ),
        decreases len - i,
    {
        let id = i as u16;
        if holds(to_retrieve_ids, id) {
            if let Some(name) = fields_ids_map.name(id) {
                selectors.push(String::from_str(name));
            }
        }
        i += 1;
        assert(name_views(selectors@) =~= names_upto(
            to_retrieve_ids@,
            fields_ids_map@,
            i as int,
        ));
    }
    selectors
}

} // verus!
