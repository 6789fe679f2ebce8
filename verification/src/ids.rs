//! Sets of field identifiers, as the plan and the request read them.

use crate::fields::FieldId;
use std::collections::BTreeSet;
use vstd::prelude::*;
use vstd::std_specs::iter::IteratorSpec;

verus! {

/// The identifiers among the first `upto` of `listed`.
pub open spec fn listed_upto(listed: Seq<FieldId>, upto: int) -> Set<FieldId> {
    Set::new(|id: FieldId| exists|k: int| 0 <= k < upto && k < listed.len() && listed[k] == id)
}

/// The identifiers of a whole list are those that the list holds.
pub proof fn lemma_listed_all(listed: Seq<FieldId>)
    ensures
        listed_upto(listed, listed.len() as int) == listed.to_set(),
{
    assert forall|id: FieldId| listed.to_set().contains(id) implies listed_upto(
        listed,
        listed.len() as int,
    ).contains(id) by {
        let k = choose|k: int| 0 <= k < listed.len() && listed[k] == id;
        assert(0 <= k < listed.len() && listed[k] == id);
    }
    assert forall|id: FieldId| listed_upto(listed, listed.len() as int).contains(
        id,
    ) implies listed.to_set().contains(id) by {
        let k = choose|k: int| 0 <= k < listed.len() && listed[k] == id;
        assert(listed.to_set().contains(listed[k]));
    }
    assert(listed_upto(listed, listed.len() as int) =~= listed.to_set());
}

/// True when `id` is in `ids`.
pub fn holds(ids: &BTreeSet<FieldId>, id: FieldId) -> (held: bool)
    ensures
        held == ids@.contains(id),
{
    broadcast use vstd::laws_cmp::group_laws_cmp;

    ids.contains(&id)
}

/// Adds `id` to `ids`.
pub fn put(ids: &mut BTreeSet<FieldId>, id: FieldId)
    ensures
        final(ids)@ == old(ids)@.insert(id),
{
    broadcast use vstd::laws_cmp::group_laws_cmp;

    ids.insert(id);
}

/// The identifiers of a set, each once.
pub fn ids_of(ids: &BTreeSet<FieldId>) -> (listed: Vec<FieldId>)
    ensures
        listed@.to_set() == ids@,
        listed@.no_duplicates(),
{
    let mut listed: Vec<FieldId> = Vec::new();
    let iter = ids.iter();
    let ghost all = iter.remaining();
    for id in it: iter
        invariant
            it.seq() == all,
            listed@ == all.unref().take(it.index()),
    {
        listed.push(*id);
        assert(listed@ =~= all.unref().take(it.index() + 1));
    }
    assert(listed@ =~= all.unref());
    listed
}

} // verus!
