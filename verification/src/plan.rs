//! The format plan: for each field that appears in the formatted document,
//! how it is formatted.

use crate::fields::{name_views, FieldId, FieldsIdsMap};
use crate::ids::{holds, ids_of, lemma_listed_all, listed_upto};
use crate::options::FormatOptions;
use std::collections::{BTreeMap, BTreeSet};
use vstd::prelude::*;
use vstd::string::{StrSliceExecFns, StringExecFns};

verus! {

/// A format plan, as a mathematical map.
pub type Plan = Map<FieldId, FormatOptions>;

/// The attribute that stands for every displayed field.
pub open spec fn star() -> Seq<char> {
    seq!['*']
}

/// What highlighting sets for a field.
pub open spec fn highlight_only() -> FormatOptions {
    FormatOptions { highlight: true, crop: None }
}

/// The options of a field after cropping to `length` was asked for it:
/// highlighting stays as it was, and is off for a field new to the plan.
pub open spec fn cropped(plan: Plan, id: FieldId, length: usize) -> FormatOptions {
    FormatOptions { highlight: plan.contains_key(id) && plan[id].highlight, crop: Some(length) }
}

/// The displayed fields whose name is one of the first `upto` attributes.
pub open spec fn named_among(
    attrs: Seq<Seq<char>>,
    upto: int,
    names: Seq<Seq<char>>,
    displayed: Set<FieldId>,
) -> Set<FieldId> {
    Set::new(
        |id: FieldId|
            displayed.contains(id) && id < names.len() && exists|k: int|
                0 <= k < upto && k < attrs.len() && #[trigger] attrs[k] == names[id as int],
    )
}

/// The fields that a list of attributes stands for: every displayed field
/// when the list holds `*`, else the displayed fields that the list names.
pub open spec fn attribute_targets(
    attrs: Seq<Seq<char>>,
    names: Seq<Seq<char>>,
    displayed: Set<FieldId>,
) -> Set<FieldId> {
    if attrs.contains(star()) {
        displayed
    } else {
        named_among(attrs, attrs.len() as int, names, displayed)
    }
}

/// The plan after highlighting was set for `targets`: their entries are
/// set, or overwritten, to highlighting without cropping.
pub open spec fn with_highlights(plan: Plan, targets: Set<FieldId>) -> Plan {
    Map::new(
        |id: FieldId| plan.contains_key(id) || targets.contains(id),
        |id: FieldId|
            if targets.contains(id) {
                highlight_only()
            } else {
                plan[id]
            },
    )
}

/// The fields that one attribute to crop stands for: every displayed field
/// for `*`, else the displayed field of that name, if there is one.
pub open spec fn crop_targets(
    name: Seq<char>,
    names: Seq<Seq<char>>,
    displayed: Set<FieldId>,
) -> Set<FieldId> {
    if name == star() {
        displayed
    } else {
        Set::new(
            |id: FieldId| displayed.contains(id) && id < names.len() && names[id as int] == name,
        )
    }
}

/// The plan after cropping to `length` was asked for `targets`.
pub open spec fn with_crop(plan: Plan, targets: Set<FieldId>, length: usize) -> Plan {
    Map::new(
        |id: FieldId| plan.contains_key(id) || targets.contains(id),
        |id: FieldId|
            if targets.contains(id) {
                cropped(plan, id, length)
            } else {
                plan[id]
            },
    )
}

/// True for a decimal digit.
pub open spec fn is_digit(c: char) -> bool {
    '0' <= c <= '9'
}

/// The number that a run of decimal digits writes.
pub open spec fn digits_value(digits: Seq<char>) -> nat
    decreases digits.len(),
{
    if digits.len() == 0 {
        0
    } else {
        digits_value(digits.drop_last()) * 10 + (digits.last() as nat - '0' as nat) as nat
    }
}

/// The number that a text writes in decimal, if it writes one that fits: an
/// optional `+`, then one or more decimal digits, and nothing else.
pub open spec fn parsed_usize(text: Seq<char>) -> Option<usize> {
    let digits = if text.len() > 0 && text[0] == '+' {
        text.drop_first()
    } else {
        text
    };
    if digits.len() > 0 && (forall|i: int| 0 <= i < digits.len() ==> is_digit(#[trigger] digits[i]))
        && digits_value(digits) <= usize::MAX {
        Some(digits_value(digits) as usize)
    } else {
        None
    }
}

/// The position of the last `:` among the first `upto` characters, or -1.
pub open spec fn last_colon(attr: Seq<char>, upto: int) -> int
    decreases upto,
{
    if upto <= 0 {
        -1
    } else if attr[upto - 1] == ':' {
        upto - 1
    } else {
        last_colon(attr, upto - 1)
    }
}

/// The field name of an attribute to crop: what stands before its last `:`,
/// or the whole attribute when it holds none.
pub open spec fn crop_attr_name(attr: Seq<char>) -> Seq<char> {
    let colon = last_colon(attr, attr.len() as int);
    if colon < 0 {
        attr
    } else {
        attr.subrange(0, colon)
    }
}

/// The crop budget of an attribute to crop: the number after its last `:`,
/// or `default` when there is no `:` or no number behind it.
pub open spec fn crop_attr_length(attr: Seq<char>, default: usize) -> usize {
    let colon = last_colon(attr, attr.len() as int);
    if colon < 0 {
        default
    } else {
        match parsed_usize(attr.subrange(colon + 1, attr.len() as int)) {
            Some(length) => length,
            None => default,
        }
    }
}

/// The plan after the first `upto` attributes to crop were applied, in order.
pub open spec fn with_crops(
    plan: Plan,
    attrs: Seq<Seq<char>>,
    upto: int,
    default: usize,
    names: Seq<Seq<char>>,
    displayed: Set<FieldId>,
) -> Plan
    decreases upto,
{
    if upto <= 0 {
        plan
    } else {
        with_crop(
            with_crops(plan, attrs, upto - 1, default, names, displayed),
            crop_targets(crop_attr_name(attrs[upto - 1]), names, displayed),
            crop_attr_length(attrs[upto - 1], default),
        )
    }
}

/// The plan after the retrieved fields were added: a field that the plan
/// lacks gets an entry that neither highlights nor crops.
pub open spec fn with_retrieved(plan: Plan, retrieved: Set<FieldId>) -> Plan {
    Map::new(
        |id: FieldId| plan.contains_key(id) || retrieved.contains(id),
        |id: FieldId|
            if plan.contains_key(id) {
                plan[id]
            } else {
                FormatOptions::none()
            },
    )
}

/// The format plan of a request. Highlights come first, then crops in the
/// order given; the retrieved fields are added only to a plan that holds
/// at least one highlighted or cropped field.
pub open spec fn formatted_options(
    attr_to_highlight: Seq<Seq<char>>,
    attr_to_crop: Seq<Seq<char>>,
    query_crop_length: usize,
    retrieved: Set<FieldId>,
    names: Seq<Seq<char>>,
    displayed: Set<FieldId>,
) -> Plan {
    let highlighted = with_highlights(
        Map::empty(),
        attribute_targets(attr_to_highlight, names, displayed),
    );
    let asked = with_crops(
        highlighted,
        attr_to_crop,
        attr_to_crop.len() as int,
        query_crop_length,
        names,
        displayed,
    );
    if asked.dom() =~= Set::empty() {
        asked
    } else {
        with_retrieved(asked, retrieved)
    }
}

/// Crops add to a plan only displayed fields.
pub proof fn lemma_with_crops_domain(
    plan: Plan,
    attrs: Seq<Seq<char>>,
    upto: int,
    default: usize,
    names: Seq<Seq<char>>,
    displayed: Set<FieldId>,
)
    ensures
        forall|id: FieldId| #[trigger]
            with_crops(plan, attrs, upto, default, names, displayed).contains_key(id)
                ==> plan.contains_key(id) || displayed.contains(id),
        forall|id: FieldId|
            plan.contains_key(id) ==> #[trigger] with_crops(
                plan,
                attrs,
                upto,
                default,
                names,
                displayed,
            ).contains_key(id),
    decreases upto,
{
    if upto > 0 {
        lemma_with_crops_domain(plan, attrs, upto - 1, default, names, displayed);
        let earlier = with_crops(plan, attrs, upto - 1, default, names, displayed);
        let targets = crop_targets(crop_attr_name(attrs[upto - 1]), names, displayed);
        let now = with_crops(plan, attrs, upto, default, names, displayed);
        assert(now == with_crop(earlier, targets, crop_attr_length(attrs[upto - 1], default)));
        assert forall|id: FieldId| #[trigger] now.contains_key(id) implies plan.contains_key(id)
            || displayed.contains(id) by {
            assert(earlier.contains_key(id) || targets.contains(id));
        }
        assert forall|id: FieldId| plan.contains_key(id) implies #[trigger] now.contains_key(
            id,
        ) by {
            assert(earlier.contains_key(id));
        }
    }
}

/// Every field of a format plan is displayed or retrieved, and a request
/// that highlights and crops no displayed field has an empty plan, whatever
/// it retrieves.
pub proof fn lemma_formatted_options_domain(
    attr_to_highlight: Seq<Seq<char>>,
    attr_to_crop: Seq<Seq<char>>,
    query_crop_length: usize,
    retrieved: Set<FieldId>,
    names: Seq<Seq<char>>,
    displayed: Set<FieldId>,
)
    ensures
        forall|id: FieldId| #[trigger]
            formatted_options(
                attr_to_highlight,
                attr_to_crop,
                query_crop_length,
                retrieved,
                names,
                displayed,
            ).contains_key(id) ==> displayed.contains(id) || retrieved.contains(id),
        displayed =~= Set::<FieldId>::empty() ==> formatted_options(
            attr_to_highlight,
            attr_to_crop,
            query_crop_length,
            retrieved,
            names,
            displayed,
        ) =~= Map::<FieldId, FormatOptions>::empty(),
        attr_to_highlight.len() == 0 && attr_to_crop.len() == 0 ==> formatted_options(
            attr_to_highlight,
            attr_to_crop,
            query_crop_length,
            retrieved,
            names,
            displayed,
        ) =~= Map::<FieldId, FormatOptions>::empty(),
{
    let highlighted = with_highlights(
        Map::empty(),
        attribute_targets(attr_to_highlight, names, displayed),
    );
    lemma_with_crops_domain(
        highlighted,
        attr_to_crop,
        attr_to_crop.len() as int,
        query_crop_length,
        names,
        displayed,
    );
}

/// Reads a number as `str::parse::<usize>` of std does, dropping the reason
/// of a failure. By the documentation of that function the text must be an
/// optional `+` followed by decimal digits only, and the number must fit in
/// a `usize`; anything else is an error.
#[verifier::external_body]
fn parse_usize(text: &str) -> (value: Option<usize>)
    ensures
        value == parsed_usize(text@),
{
    text.parse::<usize>().ok()
}

/// Splits an attribute to crop into its field name and its crop budget.
pub fn split_crop_attr(attr: &str, default: usize) -> (split: (String, usize))
    ensures
        split.0@ == crop_attr_name(attr@),
        split.1 == crop_attr_length(attr@, default),
{
    let len = attr.unicode_len();
    let mut i: usize = len;
    while i > 0
        invariant
            i <= len,
            len == attr@.len(),
            last_colon(attr@, len as int) == last_colon(attr@, i as int),
        decreases i,
    {
        if attr.get_char(i - 1) == ':' {
            let name = attr.substring_char(0, i - 1);
            let number = attr.substring_char(i, len);
            let length = match parse_usize(number) {
                Some(length) => length,
                None => default,
            };
            return (String::from_str(name), length);
        }
        i -= 1;
    }
    (String::from_str(attr), default)
}

/// Sets the entry of `id` to highlighting without cropping.
fn set_highlight(formatted_options: &mut BTreeMap<FieldId, FormatOptions>, id: FieldId)
    ensures
        final(formatted_options)@ == old(formatted_options)@.insert(id, highlight_only()),
{
    broadcast use vstd::laws_cmp::group_laws_cmp;

    formatted_options.insert(id, FormatOptions { highlight: true, crop: None });
}

/// Asks for cropping to `length` in the entry of `id`, which is added to the
/// plan when it is new.
fn set_crop(formatted_options: &mut BTreeMap<FieldId, FormatOptions>, id: FieldId, length: usize)
    ensures
        final(formatted_options)@ == old(formatted_options)@.insert(
            id,
            cropped(old(formatted_options)@, id, length),
        ),
{
    broadcast use vstd::laws_cmp::group_laws_cmp;

    let highlight = match formatted_options.get(&id) {
        Some(options) => options.highlight,
        None => false,
    };
    formatted_options.insert(id, FormatOptions { highlight, crop: Some(length) });
}

/// Sets highlighting for the displayed fields that `attr_to_highlight` names,
/// or for every displayed field when it holds `*`.
pub fn add_highlight_to_formatted_options(
    formatted_options: &mut BTreeMap<FieldId, FormatOptions>,
    attr_to_highlight: &Vec<String>,
    fields_ids_map: &FieldsIdsMap,
    displayed_ids: &BTreeSet<FieldId>,
)
    ensures
        final(formatted_options)@ == with_highlights(
            old(formatted_options)@,
            attribute_targets(
                name_views(attr_to_highlight@),
                fields_ids_map@,
                displayed_ids@,
            ),
        ),
{
    let ghost attrs = name_views(attr_to_highlight@);
    let ghost names = fields_ids_map@;
    let ghost displayed = displayed_ids@;
    let ghost before = formatted_options@;
    let all = String::from_str("*");
    proof {
        reveal_strlit("*");
        assert(all@ =~= star());
    }
    let mut i: usize = 0;
    assert(formatted_options@ =~= with_highlights(before, named_among(attrs, 0, names, displayed)));
    while i < attr_to_highlight.len()
        invariant
            i <= attr_to_highlight.len(),
            all@ == star(),
            attrs == name_views(attr_to_highlight@),
            names == fields_ids_map@,
            displayed == displayed_ids@,
            before == old(formatted_options)@,
            forall|k: int| 0 <= k < i ==> attrs[k] != star(),
            formatted_options@ == with_highlights(
                before,
                named_among(attrs, i as int, names, displayed),
            ),
        decreases attr_to_highlight.len() - i,
    {
        if attr_to_highlight[i] == all {
            let listed = ids_of(displayed_ids);
            let ghost at_star = formatted_options@;
            let mut j: usize = 0;
            assert(formatted_options@ =~= with_highlights(at_star, listed_upto(listed@, 0)));
            while j < listed.len()
                invariant
                    j <= listed.len(),
                    formatted_options@ == with_highlights(
                        at_star,
                        listed_upto(listed@, j as int),
                    ),
                decreases listed.len() - j,
            {
                set_highlight(formatted_options, listed[j]);
                j += 1;
                assert(formatted_options@ =~= with_highlights(
                    at_star,
                    listed_upto(listed@, j as int),
                ));
            }
            proof {
                lemma_listed_all(listed@);
                assert(attrs[i as int] == star());
                assert(attrs.contains(star()));
                assert(formatted_options@ =~= with_highlights(before, displayed));
            }
            return ;
        }
        match fields_ids_map.id(attr_to_highlight[i].as_str()) {
            Some(id) => {
                if holds(displayed_ids, id) {
                    set_highlight(formatted_options, id);
                }
            },
            None => {},
        }
        i += 1;
        proof {
            let grown = named_among(attrs, i as int, names, displayed);
            let earlier = named_among(attrs, i as int - 1, names, displayed);
            assert forall|id: FieldId| grown.contains(id) <==> earlier.contains(id) || (
            displayed.contains(id) && id < names.len() && names[id as int] == attrs[i as int
                - 1]) by {
                if grown.contains(id) {
                    let k = choose|k: int|
                        0 <= k < i && k < attrs.len() && #[trigger] attrs[k] == names[id as int];
                    if k < i - 1 {
                        assert(earlier.contains(id));
                    }
                }
                if earlier.contains(id) {
                    let k = choose|k: int|
                        0 <= k < i - 1 && k < attrs.len() && #[trigger] attrs[k]
                            == names[id as int];
                    assert(attrs[k] == names[id as int]);
                }
                if displayed.contains(id) && id < names.len() && names[id as int] == attrs[i as int
                    - 1] {
                    assert(attrs[i as int - 1] == names[id as int]);
                }
            }
            assert(formatted_options@ =~= with_highlights(before, grown));
        }
    }
    proof {
        assert(!attrs.contains(star()));
    }
}

/// Asks for cropping to `length` in the entries of `targets`, each once.
fn crop_all(
    formatted_options: &mut BTreeMap<FieldId, FormatOptions>,
    targets: &Vec<FieldId>,
    length: usize,
)
    requires
        targets@.no_duplicates(),
    ensures
        final(formatted_options)@ == with_crop(
            old(formatted_options)@,
            targets@.to_set(),
            length,
        ),
{
    let ghost before = formatted_options@;
    let mut j: usize = 0;
    assert(formatted_options@ =~= with_crop(before, listed_upto(targets@, 0), length));
    while j < targets.len()
        invariant
            j <= targets.len(),
            targets@.no_duplicates(),
            before == old(formatted_options)@,
            formatted_options@ == with_crop(before, listed_upto(targets@, j as int), length),
        decreases targets.len() - j,
    {
        proof {
            let id = targets@[j as int];
            if listed_upto(targets@, j as int).contains(id) {
                let k = choose|k: int| 0 <= k < j && k < targets@.len() && targets@[k] == id;
                assert(targets@[k] == targets@[j as int]);
            }
        }
        set_crop(formatted_options, targets[j], length);
        j += 1;
        assert(formatted_options@ =~= with_crop(before, listed_upto(targets@, j as int), length));
    }
    proof {
        lemma_listed_all(targets@);
    }
}

/// Applies the attributes to crop, in order: each asks for cropping of the
/// displayed field that it names, or of every displayed field when it names
/// `*`, to the budget that it carries or else to `crop_length`.
pub fn add_crop_to_formatted_options(
    formatted_options: &mut BTreeMap<FieldId, FormatOptions>,
    attr_to_crop: &Vec<String>,
    crop_length: usize,
    fields_ids_map: &FieldsIdsMap,
    displayed_ids: &BTreeSet<FieldId>,
)
    ensures
        final(formatted_options)@ == with_crops(
            old(formatted_options)@,
            name_views(attr_to_crop@),
            attr_to_crop@.len() as int,
            crop_length,
            fields_ids_map@,
            displayed_ids@,
        ),
{
    let ghost attrs = name_views(attr_to_crop@);
    let ghost names = fields_ids_map@;
    let ghost displayed = displayed_ids@;
    let ghost before = formatted_options@;
    let all = String::from_str("*");
    proof {
        reveal_strlit("*");
        assert(all@ =~= star());
    }
    let listed = ids_of(displayed_ids);
    let mut i: usize = 0;
    while i < attr_to_crop.len()
        invariant
            i <= attr_to_crop.len(),
            all@ == star(),
            attrs == name_views(attr_to_crop@),
            names == fields_ids_map@,
            displayed == displayed_ids@,
            before == old(formatted_options)@,
            listed@.to_set() == displayed,
            listed@.no_duplicates(),
            formatted_options@ == with_crops(
                before,
                attrs,
                i as int,
                crop_length,
                names,
                displayed,
            ),
        decreases attr_to_crop.len() - i,
    {
        let (name, length) = split_crop_attr(attr_to_crop[i].as_str(), crop_length);
        let ghost earlier = formatted_options@;
        let ghost targets = crop_targets(name@, names, displayed);
        if name == all {
            crop_all(formatted_options, &listed, length);
        }
        match fields_ids_map.id(name.as_str()) {
            Some(id) => {
                if holds(displayed_ids, id) {
                    set_crop(formatted_options, id, length);
                }
            },
            None => {},
        }
        i += 1;
        assert(formatted_options@ =~= with_crop(earlier, targets, length));
    }
}

/// Adds to the plan every retrieved field that it lacks, with an entry that
/// neither highlights nor crops.
pub fn add_non_formatted_ids_to_formatted_options(
    formatted_options: &mut BTreeMap<FieldId, FormatOptions>,
    to_retrieve_ids: &BTreeSet<FieldId>,
)
    ensures
        final(formatted_options)@ == with_retrieved(
            old(formatted_options)@,
            to_retrieve_ids@,
        ),
{
    let ghost before = formatted_options@;
    let listed = ids_of(to_retrieve_ids);
    let mut j: usize = 0;
    assert(formatted_options@ =~= with_retrieved(before, listed_upto(listed@, 0)));
    while j < listed.len()
        invariant
            j <= listed.len(),
            before == old(formatted_options)@,
            formatted_options@ == with_retrieved(before, listed_upto(listed@, j as int)),
        decreases listed.len() - j,
    {
        add_plain(formatted_options, listed[j]);
        j += 1;
        assert(formatted_options@ =~= with_retrieved(before, listed_upto(listed@, j as int)));
    }
    proof {
        lemma_listed_all(listed@);
    }
}

/// Gives `id` an entry that neither highlights nor crops, unless it has one.
fn add_plain(formatted_options: &mut BTreeMap<FieldId, FormatOptions>, id: FieldId)
    ensures
        final(formatted_options)@ == if old(formatted_options)@.contains_key(id) {
            old(formatted_options)@
        } else {
            old(formatted_options)@.insert(id, FormatOptions::none())
        },
{
    broadcast use vstd::laws_cmp::group_laws_cmp;

    if formatted_options.get(&id).is_none() {
        formatted_options.insert(id, FormatOptions { highlight: false, crop: None });
    }
}

/// The format plan of a request: which fields appear in the formatted
/// document, and how each is formatted.
pub fn compute_formatted_options(
    attr_to_highlight: &Vec<String>,
    attr_to_crop: &Vec<String>,
    query_crop_length: usize,
    to_retrieve_ids: &BTreeSet<FieldId>,
    fields_ids_map: &FieldsIdsMap,
    displayed_ids: &BTreeSet<FieldId>,
) -> (plan: BTreeMap<FieldId, FormatOptions>)
    ensures
        plan@ == formatted_options(
            name_views(attr_to_highlight@),
            name_views(attr_to_crop@),
            query_crop_length,
            to_retrieve_ids@,
            fields_ids_map@,
            displayed_ids@,
        ),
{
    let mut plan: BTreeMap<FieldId, FormatOptions> = BTreeMap::new();
    add_highlight_to_formatted_options(
        &mut plan,
        attr_to_highlight,
        fields_ids_map,
        displayed_ids,
    );
    add_crop_to_formatted_options(
        &mut plan,
        attr_to_crop,
        query_crop_length,
        fields_ids_map,
        displayed_ids,
    );
    if !plan.is_empty() {
        add_non_formatted_ids_to_formatted_options(&mut plan, to_retrieve_ids);
    }
    plan
}

} // verus!
