//! The matches of a document, field by field, ordered by field name.

use crate::matches::MatchInfo;
use vstd::prelude::*;
use vstd::utf8::{decode_utf8, encode_utf8};

verus! {

broadcast use vstd::utf8::group_utf8_lib;

/// True when the two byte strings agree on their first `upto` bytes.
pub open spec fn agree_upto(a: Seq<u8>, b: Seq<u8>, upto: int) -> bool {
    &&& 0 <= upto <= a.len()
    &&& upto <= b.len()
    &&& forall|k: int| 0 <= k < upto ==> a[k] == b[k]
}

/// True when `a` and `b` part at `at`: they agree before it, and there `a`
/// ends while `b` goes on, or `a` holds the smaller byte.
pub open spec fn parts_at(a: Seq<u8>, b: Seq<u8>, at: int) -> bool {
    &&& agree_upto(a, b, at)
    &&& (at == a.len() && at < b.len()) || (at < a.len() && at < b.len() && a[at] < b[at])
}

/// The order of byte strings: `a` stands before `b` when, at the first
/// place where they differ, `a` ends or holds the smaller byte.
pub open spec fn precedes(a: Seq<u8>, b: Seq<u8>) -> bool {
    exists|at: int| parts_at(a, b, at)
}

/// The order of field names: that of their UTF-8 bytes.
pub open spec fn name_precedes(a: Seq<char>, b: Seq<char>) -> bool {
    precedes(encode_utf8(a), encode_utf8(b))
}

/// No byte string stands before itself, and of two, only one stands before
/// the other.
pub proof fn lemma_precedes_asymmetric(a: Seq<u8>, b: Seq<u8>)
    requires
        precedes(a, b),
    ensures
        !precedes(b, a),
        a != b,
{
    let i = choose|i: int| parts_at(a, b, i);
    if precedes(b, a) {
        let j = choose|j: int| parts_at(b, a, j);
        if i < j {
            assert(b[i] == a[i]);
        } else if j < i {
            assert(a[j] == b[j]);
        }
    }
}

/// The order of byte strings is transitive.
pub proof fn lemma_precedes_transitive(a: Seq<u8>, b: Seq<u8>, c: Seq<u8>)
    requires
        precedes(a, b),
        precedes(b, c),
    ensures
        precedes(a, c),
{
    let i = choose|i: int| parts_at(a, b, i);
    let j = choose|j: int| parts_at(b, c, j);
    let at = if i <= j {
        i
    } else {
        j
    };
    assert(agree_upto(a, c, at)) by {
        assert forall|k: int| 0 <= k < at implies a[k] == c[k] by {
            assert(a[k] == b[k]);
            assert(b[k] == c[k]);
        }
    }
    if i < j {
        assert(b[i] == c[i]);
    } else if j < i {
        assert(a[j] == b[j]);
    }
    assert(parts_at(a, c, at));
}

/// Of two byte strings that agree on their first `from` bytes, one stands
/// before the other unless they are the same.
pub proof fn lemma_precedes_total(a: Seq<u8>, b: Seq<u8>, from: int)
    requires
        agree_upto(a, b, from),
    ensures
        a == b || precedes(a, b) || precedes(b, a),
    decreases a.len() - from,
{
    if from == a.len() && from == b.len() {
        assert(a =~= b);
    } else if from == a.len() {
        assert(parts_at(a, b, from));
    } else if from == b.len() {
        assert(parts_at(b, a, from));
    } else if a[from] < b[from] {
        assert(parts_at(a, b, from));
    } else if b[from] < a[from] {
        assert(parts_at(b, a, from));
    } else {
        lemma_precedes_total(a, b, from + 1);
    }
}

/// Of two different names, one stands before the other.
pub proof fn lemma_names_are_ordered(a: Seq<char>, b: Seq<char>)
    ensures
        a == b || name_precedes(a, b) || name_precedes(b, a),
{
    lemma_precedes_total(encode_utf8(a), encode_utf8(b), 0);
    if encode_utf8(a) == encode_utf8(b) {
        assert(decode_utf8(encode_utf8(a)) == a);
        assert(decode_utf8(encode_utf8(b)) == b);
    }
}

/// One field of a document with the matches found in it.
#[derive(Debug, PartialEq, Eq)]
pub struct FieldMatches {
    pub name: String,
    pub infos: Vec<MatchInfo>,
}

/// The mathematical value of a [`FieldMatches`].
pub struct FieldMatchesView {
    pub name: Seq<char>,
    pub infos: Seq<MatchInfo>,
}

impl View for FieldMatches {
    type V = FieldMatchesView;

    open spec fn view(&self) -> FieldMatchesView {
        FieldMatchesView { name: self.name@, infos: self.infos@ }
    }
}

/// The views of a run of entries.
pub open spec fn entry_views(entries: Seq<FieldMatches>) -> Seq<FieldMatchesView> {
    entries.map_values(|entry: FieldMatches| entry@)
}

/// True when the entries stand in the strict order of their names, so that
/// no name occurs twice.
pub open spec fn ordered_by_name(entries: Seq<FieldMatchesView>) -> bool {
    forall|i: int, j: int|
        0 <= i < j < entries.len() ==> name_precedes(
            (#[trigger] entries[i]).name,
            (#[trigger] entries[j]).name,
        )
}

/// The entries after the matches of the field `name` were recorded: the
/// entry of that name is replaced if there is one, else a new entry is put
/// at its place in the order of names.
pub open spec fn recorded(
    entries: Seq<FieldMatchesView>,
    name: Seq<char>,
    infos: Seq<MatchInfo>,
) -> Seq<FieldMatchesView>
    decreases entries.len(),
{
    if entries.len() == 0 {
        seq![FieldMatchesView { name, infos }]
    } else if entries[0].name == name {
        entries.update(0, FieldMatchesView { name, infos })
    } else if name_precedes(name, entries[0].name) {
        seq![FieldMatchesView { name, infos }] + entries
    } else {
        seq![entries[0]] + recorded(entries.drop_first(), name, infos)
    }
}

/// Entries that stand before `name` are passed over when `name` is recorded.
proof fn lemma_recorded_after(
    entries: Seq<FieldMatchesView>,
    name: Seq<char>,
    infos: Seq<MatchInfo>,
    at: int,
)
    requires
        0 <= at <= entries.len(),
        forall|k: int| 0 <= k < at ==> name_precedes((#[trigger] entries[k]).name, name),
    ensures
        recorded(entries, name, infos) == entries.take(at) + recorded(
            entries.skip(at),
            name,
            infos,
        ),
    decreases at,
{
    if at == 0 {
        assert(entries.skip(0) =~= entries);
        assert(entries.take(0) + recorded(entries, name, infos) =~= recorded(
            entries,
            name,
            infos,
        ));
    } else {
        lemma_precedes_asymmetric(encode_utf8(entries[0].name), encode_utf8(name));
        let rest = entries.drop_first();
        assert forall|k: int| 0 <= k < at - 1 implies name_precedes(
            (#[trigger] rest[k]).name,
            name,
        ) by {
            assert(rest[k] == entries[k + 1]);
        }
        lemma_recorded_after(rest, name, infos, at - 1);
        assert(rest.skip(at - 1) =~= entries.skip(at));
        assert(seq![entries[0]] + (rest.take(at - 1) + recorded(entries.skip(at), name, infos))
            =~= entries.take(at) + recorded(entries.skip(at), name, infos));
    }
}

/// Recording keeps the order of names: the entries after are those before,
/// but for the one of the recorded name, which is now the recorded one.
pub proof fn lemma_recorded_keeps_order(
    entries: Seq<FieldMatchesView>,
    name: Seq<char>,
    infos: Seq<MatchInfo>,
)
    requires
        ordered_by_name(entries),
    ensures
        ordered_by_name(recorded(entries, name, infos)),
        forall|k: int|
            0 <= k < recorded(entries, name, infos).len() ==> (#[trigger] recorded(
                entries,
                name,
                infos,
            )[k]) == (FieldMatchesView { name, infos }) || (entries.contains(
                recorded(entries, name, infos)[k],
            ) && recorded(entries, name, infos)[k].name != name),
        recorded(entries, name, infos).contains(FieldMatchesView { name, infos }),
    decreases entries.len(),
{
    let added = FieldMatchesView { name, infos };
    let after = recorded(entries, name, infos);
    if entries.len() == 0 {
        assert(after[0] == added);
    } else if entries[0].name == name {
        assert(after[0] == added);
        assert forall|k: int| 0 <= k < after.len() implies (#[trigger] after[k]) == added || (
        entries.contains(after[k]) && after[k].name != name) by {
            if k > 0 {
                assert(after[k] == entries[k]);
                assert(name_precedes(entries[0].name, entries[k].name));
                lemma_precedes_asymmetric(
                    encode_utf8(entries[0].name),
                    encode_utf8(entries[k].name),
                );
            }
        }
        assert forall|i: int, j: int| 0 <= i < j < after.len() implies name_precedes(
            (#[trigger] after[i]).name,
            (#[trigger] after[j]).name,
        ) by {
            assert(after[j] == entries[j]);
            assert(name_precedes(entries[i].name, entries[j].name));
        }
    } else if name_precedes(name, entries[0].name) {
        assert(after[0] == added);
        assert forall|k: int| 0 <= k < after.len() implies (#[trigger] after[k]) == added || (
        entries.contains(after[k]) && after[k].name != name) by {
            if k > 0 {
                assert(after[k] == entries[k - 1]);
                if k - 1 > 0 {
                    assert(name_precedes(entries[0].name, entries[k - 1].name));
                    lemma_precedes_transitive(
                        encode_utf8(name),
                        encode_utf8(entries[0].name),
                        encode_utf8(entries[k - 1].name),
                    );
                }
                lemma_precedes_asymmetric(encode_utf8(name), encode_utf8(entries[k - 1].name));
            }
        }
        assert forall|i: int, j: int| 0 <= i < j < after.len() implies name_precedes(
            (#[trigger] after[i]).name,
            (#[trigger] after[j]).name,
        ) by {
            assert(after[j] == entries[j - 1]);
            if i == 0 {
                if j - 1 > 0 {
                    assert(name_precedes(entries[0].name, entries[j - 1].name));
                    lemma_precedes_transitive(
                        encode_utf8(name),
                        encode_utf8(entries[0].name),
                        encode_utf8(entries[j - 1].name),
                    );
                }
            } else {
                assert(after[i] == entries[i - 1]);
                assert(name_precedes(entries[i - 1].name, entries[j - 1].name));
            }
        }
    } else {
        let rest = entries.drop_first();
        let later = recorded(rest, name, infos);
        assert forall|i: int, j: int| 0 <= i < j < rest.len() implies name_precedes(
            (#[trigger] rest[i]).name,
            (#[trigger] rest[j]).name,
        ) by {
            assert(rest[i] == entries[i + 1] && rest[j] == entries[j + 1]);
        }
        lemma_recorded_keeps_order(rest, name, infos);
        lemma_names_are_ordered(entries[0].name, name);
        assert(after =~= seq![entries[0]] + later);
        assert forall|k: int| 0 <= k < after.len() implies (#[trigger] after[k]) == added || (
        entries.contains(after[k]) && after[k].name != name) by {
            if k == 0 {
                assert(after[0] == entries[0]);
            } else {
                assert(after[k] == later[k - 1]);
                if later[k - 1] != added {
                    assert(rest.contains(later[k - 1]));
                    let at = choose|at: int| 0 <= at < rest.len() && rest[at] == later[k - 1];
                    assert(entries[at + 1] == later[k - 1]);
                }
            }
        }
        assert forall|i: int, j: int| 0 <= i < j < after.len() implies name_precedes(
            (#[trigger] after[i]).name,
            (#[trigger] after[j]).name,
        ) by {
            assert(after[j] == later[j - 1]);
            if i == 0 {
                assert(after[0] == entries[0]);
                if later[j - 1] != added {
                    assert(rest.contains(later[j - 1]));
                    let at = choose|at: int| 0 <= at < rest.len() && rest[at] == later[j - 1];
                    assert(entries[at + 1] == later[j - 1]);
                    assert(name_precedes(entries[0].name, entries[at + 1].name));
                }
            } else {
                assert(after[i] == later[i - 1]);
                assert(name_precedes(later[i - 1].name, later[j - 1].name));
            }
        }
        let found = choose|k: int| 0 <= k < later.len() && later[k] == added;
        assert(after[found + 1] == added);
    }
}

/// The matches of a document: its fields that hold at least one match, in
/// the order of their names.
#[derive(Debug, PartialEq, Eq)]
pub struct MatchesInfo {
    entries: Vec<FieldMatches>,
}

impl View for MatchesInfo {
    type V = Seq<FieldMatchesView>;

    closed spec fn view(&self) -> Seq<FieldMatchesView> {
        entry_views(self.entries@)
    }
}

/// How two names stand to each other.
enum Place {
    Before,
    Same,
    After,
}

/// Where `a` stands with respect to `b` in the order of names.
fn place_of(a: &str, b: &str) -> (place: Place)
    ensures
        place is Before <==> name_precedes(a@, b@),
        place is Same <==> a@ == b@,
        place is After <==> name_precedes(b@, a@),
{
    let left = a.as_bytes();
    let right = b.as_bytes();
    let mut i: usize = 0;
    while i < left.len() && i < right.len()
        invariant
            left@ == encode_utf8(a@),
            right@ == encode_utf8(b@),
            agree_upto(left@, right@, i as int),
        decreases left.len() - i,
    {
        if left[i] < right[i] {
            proof {
                assert(parts_at(left@, right@, i as int));
                lemma_precedes_asymmetric(left@, right@);
            }
            return Place::Before;
        }
        if left[i] > right[i] {
            proof {
                assert(parts_at(right@, left@, i as int));
                lemma_precedes_asymmetric(right@, left@);
            }
            return Place::After;
        }
        i += 1;
    }
    if left.len() < right.len() {
        proof {
            assert(parts_at(left@, right@, i as int));
            lemma_precedes_asymmetric(left@, right@);
        }
        Place::Before
    } else if left.len() > right.len() {
        proof {
            assert(parts_at(right@, left@, i as int));
            lemma_precedes_asymmetric(right@, left@);
        }
        Place::After
    } else {
        proof {
            assert(left@ =~= right@);
            assert(decode_utf8(encode_utf8(a@)) == a@);
            assert(decode_utf8(encode_utf8(b@)) == b@);
            if precedes(left@, right@) {
                lemma_precedes_asymmetric(left@, right@);
            }
        }
        Place::Same
    }
}

impl MatchesInfo {
    #[verifier::type_invariant]
    spec fn ordered(self) -> bool {
        ordered_by_name(entry_views(self.entries@))
    }

    /// True when the entries stand in the strict order of their names, as
    /// those of every value of this type do.
    pub open spec fn wf(self) -> bool {
        ordered_by_name(self@)
    }

    /// No matches.
    pub fn new() -> (matches: MatchesInfo)
        ensures
            matches@ == Seq::<FieldMatchesView>::empty(),
            matches.wf(),
    {
        let matches = MatchesInfo { entries: Vec::new() };
        assert(matches@ =~= Seq::<FieldMatchesView>::empty());
        matches
    }

    /// The number of fields that hold a match.
    pub fn len(&self) -> (len: usize)
        ensures
            len == self@.len(),
            self.wf(),
    {
        proof {
            use_type_invariant(self);
        }
        self.entries.len()
    }

    /// True when no field holds a match.
    pub fn is_empty(&self) -> (empty: bool)
        ensures
            empty == (self@.len() == 0),
    {
        self.entries.len() == 0
    }

    /// The fields with their matches, in the order of the field names.
    pub fn entries(&self) -> (entries: &Vec<FieldMatches>)
        ensures
            entry_views(entries@) == self@,
            ordered_by_name(entry_views(entries@)),
    {
        proof {
            use_type_invariant(self);
        }
        &self.entries
    }

    /// The matches of the field `name`, if it holds any.
    pub fn get(&self, name: &str) -> (infos: Option<&Vec<MatchInfo>>)
        ensures
            infos is Some ==> exists|i: int|
                0 <= i < self@.len() && (#[trigger] self@[i]).name == name@ && self@[i].infos
                    == infos->0@,
            infos is None ==> forall|i: int|
                0 <= i < self@.len() ==> (#[trigger] self@[i]).name != name@,
    {
        let mut i: usize = 0;
        while i < self.entries.len()
            invariant
                i <= self.entries.len(),
                forall|k: int| 0 <= k < i ==> (#[trigger] self@[k]).name != name@,
            decreases self.entries.len() - i,
        {
            if let Place::Same = place_of(self.entries[i].name.as_str(), name) {
                assert(self@[i as int].name == name@ && self@[i as int].infos
                    == self.entries@[i as int].infos@);
                return Some(&self.entries[i].infos);
            }
            i += 1;
        }
        None
    }

    /// Records the matches of the field `name`, in place of those recorded
    /// for it before, if any.
    pub fn insert(&mut self, name: String, infos: Vec<MatchInfo>)
        ensures
            final(self).wf(),
            final(self)@ == recorded(old(self)@, name@, infos@),
    {
        proof {
            use_type_invariant(&*self);
        }
        let ghost before = self@;
        let ghost added = FieldMatchesView { name: name@, infos: infos@ };
        let mut taken = MatchesInfo { entries: Vec::new() };
        core::mem::swap(self, &mut taken);
        let mut entries = taken.entries;
        let mut at: usize = 0;
        let mut same = false;
        while at < entries.len()
            invariant_except_break
                !same,
            invariant
                at <= entries.len(),
                entry_views(entries@) == before,
                forall|k: int| 0 <= k < at ==> name_precedes((#[trigger] before[k]).name, name@),
            ensures
                at <= entries.len(),
                entry_views(entries@) == before,
                forall|k: int| 0 <= k < at ==> name_precedes((#[trigger] before[k]).name, name@),
                same ==> at < before.len() && before[at as int].name == name@,
                !same && at < before.len() ==> name_precedes(name@, before[at as int].name),
            decreases entries.len() - at,
        {
            match place_of(entries[at].name.as_str(), name.as_str()) {
                Place::Before => {
                    at += 1;
                },
                Place::Same => {
                    same = true;
                    break ;
                },
                Place::After => {
                    break ;
                },
            }
        }
        proof {
            lemma_recorded_after(before, name@, infos@, at as int);
            let rest = before.skip(at as int);
            if same {
                assert(recorded(rest, name@, infos@) == rest.update(0, added));
                assert(before.take(at as int) + rest.update(0, added) =~= before.update(
                    at as int,
                    added,
                ));
            } else if at < before.len() {
                assert(rest[0] == before[at as int]);
                lemma_precedes_asymmetric(encode_utf8(name@), encode_utf8(rest[0].name));
                assert(recorded(rest, name@, infos@) == seq![added] + rest);
                assert(before.take(at as int) + (seq![added] + rest) =~= before.insert(
                    at as int,
                    added,
                ));
            } else {
                assert(before.take(at as int) + seq![added] =~= before.insert(at as int, added));
            }
        }
        let entry = FieldMatches { name, infos };
        if same {
            entries.set(at, entry);
            assert(entry_views(entries@) =~= before.update(at as int, added));
        } else {
            entries.insert(at, entry);
            assert(entry_views(entries@) =~= before.insert(at as int, added));
        }
        proof {
            lemma_recorded_keeps_order(before, name@, infos@);
        }
        *self = MatchesInfo { entries };
    }
}

} // verus!
