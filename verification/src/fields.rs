//! The map between field names and field identifiers.

use vstd::prelude::*;
use vstd::string::StringExecFns;

verus! {

/// The identifier of a field.
pub type FieldId = u16;

/// The number of identifiers that exist.
pub open spec fn id_space() -> nat {
    0x1_0000
}

/// True when no name occurs twice in `names`.
pub open spec fn distinct_names(names: Seq<Seq<char>>) -> bool {
    forall|i: int, j: int| 0 <= i < j < names.len() ==> names[i] != names[j]
}

/// The identifier of `name` among `names`, where the identifier of a name is
/// its position.
pub open spec fn id_of(names: Seq<Seq<char>>, name: Seq<char>) -> Option<FieldId> {
    if exists|i: int| 0 <= i < names.len() && i < id_space() && names[i] == name {
        Some((choose|i: int| 0 <= i < names.len() && i < id_space() && names[i] == name) as u16)
    } else {
        None
    }
}

/// Among distinct names, `id_of` is the one position at which a name stands.
pub proof fn lemma_id_of(names: Seq<Seq<char>>, name: Seq<char>, id: int)
    requires
        distinct_names(names),
        names.len() <= id_space(),
        0 <= id < names.len(),
        names[id] == name,
    ensures
        id_of(names, name) == Some(id as u16),
{
    let found = choose|i: int| 0 <= i < names.len() && i < id_space() && names[i] == name;
    if found < id {
        assert(names[found] != names[id]);
    } else if id < found {
        assert(names[id] != names[found]);
    }
}

/// A name that stands nowhere among `names` has no identifier.
pub proof fn lemma_id_of_unknown(names: Seq<Seq<char>>, name: Seq<char>)
    requires
        forall|i: int| 0 <= i < names.len() ==> names[i] != name,
    ensures
        id_of(names, name) is None,
{
}

/// A one-to-one map between field names and identifiers. Identifiers are
/// given out in order, starting at zero.
#[derive(Debug)]
pub struct FieldsIdsMap {
    names: Vec<String>,
}

/// The views of a run of names.
pub open spec fn name_views(names: Seq<String>) -> Seq<Seq<char>> {
    names.map_values(|name: String| name@)
}

impl View for FieldsIdsMap {
    type V = Seq<Seq<char>>;

    /// The names, each at the position that is its identifier.
    closed spec fn view(&self) -> Seq<Seq<char>> {
        name_views(self.names@)
    }
}

impl FieldsIdsMap {
    #[verifier::type_invariant]
    spec fn one_to_one(self) -> bool {
        &&& distinct_names(name_views(self.names@))
        &&& self.names@.len() <= id_space()
    }

    /// The empty map.
    pub fn new() -> (map: FieldsIdsMap)
        ensures
            map@ == Seq::<Seq<char>>::empty(),
    {
        let map = FieldsIdsMap { names: Vec::new() };
        assert(map@ =~= Seq::<Seq<char>>::empty());
        map
    }

    /// The number of names.
    pub fn len(&self) -> (len: usize)
        ensures
            len == self@.len(),
            len <= id_space(),
            distinct_names(self@),
    {
        proof {
            use_type_invariant(self);
        }
        self.names.len()
    }

    /// The identifier of `name`, if the map knows it.
    pub fn id(&self, name: &str) -> (id: Option<FieldId>)
        ensures
            id == id_of(self@, name@),
            id is Some ==> id->0 < self@.len() && self@[id->0 as int] == name@,
            id is Some ==> forall|i: int|
                0 <= i < self@.len() && self@[i] == name@ ==> i == id->0,
            id is None ==> forall|i: int| 0 <= i < self@.len() ==> self@[i] != name@,
    {
        proof {
            use_type_invariant(self);
        }
        let wanted = String::from_str(name);
        let mut i: usize = 0;
        while i < self.names.len()
            invariant
                i <= self.names.len(),
                self.names@.len() <= id_space(),
                distinct_names(name_views(self.names@)),
                wanted@ == name@,
                forall|j: int| 0 <= j < i ==> name_views(self.names@)[j] != name@,
            decreases self.names.len() - i,
        {
            if self.names[i] == wanted {
                proof {
                    lemma_id_of(self@, name@, i as int);
                }
                return Some(i as u16);
            }
            i += 1;
        }
        proof {
            lemma_id_of_unknown(self@, name@);
        }
        None
    }

    /// The name that `id` stands for, if it stands for one.
    pub fn name(&self, id: FieldId) -> (name: Option<&str>)
        ensures
            name is Some <==> id < self@.len(),
            name is Some ==> name->0@ == self@[id as int],
    {
        if (id as usize) < self.names.len() {
            Some(self.names[id as usize].as_str())
        } else {
            None
        }
    }

    /// The identifier of `name`, which is added to the map when it is new.
    /// `None` when the name is new and no identifier is left.
    pub fn insert(&mut self, name: &str) -> (id: Option<FieldId>)
        ensures
            old(self)@.contains(name@) ==> final(self)@ == old(self)@ && id == id_of(
                old(self)@,
                name@,
            ),
            !old(self)@.contains(name@) && old(self)@.len() < id_space() ==> final(self)@
                == old(self)@.push(name@) && id == Some(old(self)@.len() as u16),
            !old(self)@.contains(name@) && old(self)@.len() >= id_space() ==> final(self)@
                == old(self)@ && id is None,
    {
        let known = self.id(name);
        if known.is_some() {
            return known;
        }
        proof {
            use_type_invariant(&*self);
        }
        if self.names.len() >= 0x1_0000 {
            return None;
        }
        let id = self.names.len() as u16;
        let mut taken = FieldsIdsMap { names: Vec::new() };
        core::mem::swap(self, &mut taken);
        let mut names = taken.names;
        names.push(String::from_str(name));
        proof {
            assert(name_views(names@) =~= name_views(old(self).names@).push(name@));
        }
        *self = FieldsIdsMap { names };
        Some(id)
    }
}

} // verus!
