//! Documents: ordered maps from field names to values.

use crate::value::{FieldView, Value};
use indexmap::IndexMap;
use vstd::prelude::*;

verus! {

/// The insertion-ordered hash map of the indexmap crate. Nothing of its
/// inside is known here; what a document holds is told by `document_fields`.
#[verifier::external_type_specification]
#[verifier::external_body]
#[verifier::reject_recursive_types(K)]
#[verifier::reject_recursive_types(V)]
#[verifier::reject_recursive_types(S)]
pub struct ExIndexMap<K, V, S>(IndexMap<K, V, S>);

/// A document: its fields, in the order in which they were first inserted.
pub type Document = IndexMap<String, Value>;

/// The fields that a document holds, in its order.
pub uninterp spec fn document_fields(document: IndexMap<String, Value>) -> Seq<FieldView>;

/// The fields of a document, in its order, as `IndexMap::iter` hands them out:
/// one pair of a name and a value for each field.
#[verifier::external_body]
pub(crate) fn fields_of(document: &IndexMap<String, Value>) -> (fields: Vec<(&String, &Value)>)
    ensures
        fields@.len() == document_fields(*document).len(),
        forall|i: int|
            0 <= i < fields@.len() ==> (#[trigger] fields@[i]).0@ == document_fields(
                *document,
            )[i].name && fields@[i].1@ == document_fields(*document)[i].value,
{
    document.iter().collect()
}

} // verus!
