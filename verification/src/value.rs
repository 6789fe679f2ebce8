//! Document values: the analysed values that the formatter and the match
//! computer read, and the plain values that formatting produces.

use crate::text::Text;
use crate::token::TokenView;
use vstd::prelude::*;

verus! {

/// A value of a document field. Strings are held analysed; a number is held
/// as the analysed text of its canonical decimal form.
#[derive(Debug, PartialEq, Eq)]
pub enum Value {
    Null,
    Bool(bool),
    Number(Text),
    String(Text),
    Array(Vec<Value>),
    Object(Vec<Field>),
}

/// A named value inside an object.
#[derive(Debug, PartialEq, Eq)]
pub struct Field {
    pub name: String,
    pub value: Value,
}

/// The mathematical value of a [`Value`].
pub enum ValueView {
    Null,
    Bool(bool),
    Number(Seq<TokenView>),
    String(Seq<TokenView>),
    Array(Seq<ValueView>),
    Object(Seq<FieldView>),
}

/// The mathematical value of a [`Field`].
pub struct FieldView {
    pub name: Seq<char>,
    pub value: ValueView,
}

impl View for Value {
    type V = ValueView;

    open spec fn view(&self) -> ValueView
        decreases self,
    {
        match self {
            Value::Null => ValueView::Null,
            Value::Bool(b) => ValueView::Bool(*b),
            Value::Number(text) => ValueView::Number(text@),
            Value::String(text) => ValueView::String(text@),
            Value::Array(values) => ValueView::Array(
                Seq::new(
                    values@.len(),
                    |i: int|
                        if 0 <= i < values@.len() {
                            values@[i].view()
                        } else {
                            ValueView::Null
                        },
                ),
            ),
            Value::Object(fields) => ValueView::Object(
                Seq::new(
                    fields@.len(),
                    |i: int|
                        if 0 <= i < fields@.len() {
                            FieldView { name: fields@[i].name@, value: fields@[i].value.view() }
                        } else {
                            FieldView { name: Seq::empty(), value: ValueView::Null }
                        },
                ),
            ),
        }
    }
}

impl View for Field {
    type V = FieldView;

    open spec fn view(&self) -> FieldView {
        FieldView { name: self.name@, value: self.value@ }
    }
}

impl Value {
    /// The view of an array is the sequence of the views of its elements.
    pub proof fn lemma_array_view(self)
        requires
            self is Array,
        ensures
            self@ is Array,
            self@->Array_0.len() == self->Array_0@.len(),
            forall|i: int|
                0 <= i < self->Array_0@.len() ==> (#[trigger] self@->Array_0[i])
                    == self->Array_0@[i]@,
    {
    }

    /// The view of an object is the sequence of its fields, each a name and
    /// the view of a value.
    pub proof fn lemma_object_view(self)
        requires
            self is Object,
        ensures
            self@ is Object,
            self@->Object_0.len() == self->Object_0@.len(),
            forall|i: int|
                0 <= i < self->Object_0@.len() ==> (#[trigger] self@->Object_0[i])
                    == self->Object_0@[i]@,
    {
    }
}

/// A formatted value. Strings and numbers come out as strings; arrays and
/// objects keep their shape; the other values stand as they were.
#[derive(Debug, PartialEq, Eq)]
pub enum Formatted {
    Null,
    Bool(bool),
    String(String),
    Array(Vec<Formatted>),
    Object(Vec<FormattedField>),
}

/// A named value inside a formatted object.
#[derive(Debug, PartialEq, Eq)]
pub struct FormattedField {
    pub name: String,
    pub value: Formatted,
}

impl Formatted {
    /// The view of an array is the sequence of the views of its elements.
    pub proof fn lemma_array_view(self)
        requires
            self is Array,
        ensures
            self@ is Array,
            self@->Array_0.len() == self->Array_0@.len(),
            forall|i: int|
                0 <= i < self->Array_0@.len() ==> (#[trigger] self@->Array_0[i])
                    == self->Array_0@[i]@,
    {
    }

    /// The view of an object is the sequence of the views of its fields.
    pub proof fn lemma_object_view(self)
        requires
            self is Object,
        ensures
            self@ is Object,
            self@->Object_0.len() == self->Object_0@.len(),
            forall|i: int|
                0 <= i < self->Object_0@.len() ==> (#[trigger] self@->Object_0[i])
                    == self->Object_0@[i]@,
    {
    }
}

/// The mathematical value of a [`Formatted`].
pub enum FormattedView {
    Null,
    Bool(bool),
    String(Seq<char>),
    Array(Seq<FormattedView>),
    Object(Seq<FormattedFieldView>),
}

/// The mathematical value of a [`FormattedField`].
pub struct FormattedFieldView {
    pub name: Seq<char>,
    pub value: FormattedView,
}

impl View for FormattedField {
    type V = FormattedFieldView;

    open spec fn view(&self) -> FormattedFieldView {
        FormattedFieldView { name: self.name@, value: self.value@ }
    }
}

impl View for Formatted {
    type V = FormattedView;

    open spec fn view(&self) -> FormattedView
        decreases self,
    {
        match self {
            Formatted::Null => FormattedView::Null,
            Formatted::Bool(b) => FormattedView::Bool(*b),
            Formatted::String(text) => FormattedView::String(text@),
            Formatted::Array(values) => FormattedView::Array(
                Seq::new(
                    values@.len(),
                    |i: int|
                        if 0 <= i < values@.len() {
                            values@[i].view()
                        } else {
                            FormattedView::Null
                        },
                ),
            ),
            Formatted::Object(fields) => FormattedView::Object(
                Seq::new(
                    fields@.len(),
                    |i: int|
                        if 0 <= i < fields@.len() {
                            FormattedFieldView {
                                name: fields@[i].name@,
                                value: fields@[i].value.view(),
                            }
                        } else {
                            FormattedFieldView { name: Seq::empty(), value: FormattedView::Null }
                        },
                ),
            ),
        }
    }
}

} // verus!
