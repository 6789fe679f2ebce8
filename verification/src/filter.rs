//! The shape of a filter: one expression, or a conjunction of clauses, each
//! clause one expression or a disjunction of expressions.

use crate::fields::name_views;
use vstd::prelude::*;
use vstd::string::StringExecFns;

verus! {

/// A filter as a request gives it, as far as its shape goes.
#[derive(Debug, PartialEq, Eq)]
pub enum FilterValue {
    /// A string: one expression.
    String(String),
    /// An array of clauses.
    Array(Vec<FilterElement>),
    /// Any other value.
    Other,
}

/// One element of a filter array.
#[derive(Debug, PartialEq, Eq)]
pub enum FilterElement {
    /// A string: one expression.
    String(String),
    /// An array; each of its items is a string, or `None` for any other value.
    Array(Vec<Option<String>>),
    /// Any other value.
    Other,
}

/// One clause of a conjunction.
#[derive(Debug, PartialEq, Eq)]
pub enum Clause {
    /// One expression.
    One(String),
    /// A disjunction of expressions.
    AnyOf(Vec<String>),
}

/// A filter whose shape was accepted.
#[derive(Debug, PartialEq, Eq)]
pub enum Filter {
    /// One expression.
    Expression(String),
    /// A conjunction of clauses.
    Clauses(Vec<Clause>),
}

/// Why the shape of a filter was refused, and where.
#[derive(Clone, Copy, Debug, PartialEq, Eq)]
pub enum FilterError {
    /// The filter is neither a string nor an array.
    ExpectedArray,
    /// Element `at` of the filter array is neither a string nor an array.
    ExpectedStringOrStrings { at: usize },
    /// Item `inner` of the array that is element `at` is not a string.
    ExpectedString { at: usize, inner: usize },
}

/// The shapes that are named as expected where an error was found.
pub open spec fn expected_shapes(error: FilterError) -> Seq<Seq<char>> {
    match error {
        FilterError::ExpectedArray => seq!["Array"@],
        FilterError::ExpectedStringOrStrings { .. } => seq!["String"@, "[String]"@],
        FilterError::ExpectedString { .. } => seq!["String"@],
    }
}

/// The place of the value that was refused: the positions to follow from the
/// filter down to it.
pub open spec fn refused_at(error: FilterError) -> Seq<usize> {
    match error {
        FilterError::ExpectedArray => seq![],
        FilterError::ExpectedStringOrStrings { at } => seq![at],
        FilterError::ExpectedString { at, inner } => seq![at, inner],
    }
}

impl FilterError {
    /// The shapes that are named as expected in the message of this error.
    pub fn expected(&self) -> (shapes: Vec<String>)
        ensures
            name_views(shapes@) == expected_shapes(*self),
    {
        let mut shapes: Vec<String> = Vec::new();
        match self {
            FilterError::ExpectedArray => {
                shapes.push(String::from_str("Array"));
            },
            FilterError::ExpectedStringOrStrings { .. } => {
                shapes.push(String::from_str("String"));
                shapes.push(String::from_str("[String]"));
            },
            FilterError::ExpectedString { .. } => {
                shapes.push(String::from_str("String"));
            },
        }
        assert(name_views(shapes@) =~= expected_shapes(*self));
        shapes
    }

    /// The place of the value that was refused.
    pub fn path(&self) -> (path: Vec<usize>)
        ensures
            path@ == refused_at(*self),
    {
        let mut path: Vec<usize> = Vec::new();
        match self {
            FilterError::ExpectedArray => {},
            FilterError::ExpectedStringOrStrings { at } => {
                path.push(*at);
            },
            FilterError::ExpectedString { at, inner } => {
                path.push(*at);
                path.push(*inner);
            },
        }
        assert(path@ =~= refused_at(*self));
        path
    }
}

/// The mathematical value of a [`Clause`].
pub enum ClauseView {
    One(Seq<char>),
    AnyOf(Seq<Seq<char>>),
}

impl View for Clause {
    type V = ClauseView;

    open spec fn view(&self) -> ClauseView {
        match self {
            Clause::One(expression) => ClauseView::One(expression@),
            Clause::AnyOf(expressions) => ClauseView::AnyOf(
                expressions@.map_values(|expression: String| expression@),
            ),
        }
    }
}

/// The mathematical value of a [`Filter`].
pub enum FilterView {
    Expression(Seq<char>),
    Clauses(Seq<ClauseView>),
}

impl View for Filter {
    type V = FilterView;

    open spec fn view(&self) -> FilterView {
        match self {
            Filter::Expression(expression) => FilterView::Expression(expression@),
            Filter::Clauses(clauses) => FilterView::Clauses(
                clauses@.map_values(|clause: Clause| clause@),
            ),
        }
    }
}

/// The position of the first item that is no string, or the number of items
/// when all are strings.
pub open spec fn first_non_string(items: Seq<Option<String>>, from: int) -> int
    decreases items.len() - from,
{
    if from < 0 || from >= items.len() {
        items.len() as int
    } else if items[from] is None {
        from
    } else {
        first_non_string(items, from + 1)
    }
}

/// What is wrong with one element of a filter array, if anything.
pub open spec fn element_error(element: FilterElement, at: usize) -> Option<FilterError> {
    match element {
        FilterElement::String(_) => None,
        FilterElement::Array(items) => {
            let inner = first_non_string(items@, 0);
            if inner < items@.len() {
                Some(FilterError::ExpectedString { at, inner: inner as usize })
            } else {
                None
            }
        },
        FilterElement::Other => Some(FilterError::ExpectedStringOrStrings { at }),
    }
}

/// The clause that a well-shaped element stands for.
pub open spec fn clause_of(element: FilterElement) -> ClauseView {
    match element {
        FilterElement::String(expression) => ClauseView::One(expression@),
        FilterElement::Array(items) => ClauseView::AnyOf(
            Seq::new(items@.len(), |i: int| items@[i]->0@),
        ),
        FilterElement::Other => ClauseView::AnyOf(Seq::empty()),
    }
}

/// The position of the first element that is wrong, or the number of
/// elements when none is.
pub open spec fn first_wrong(elements: Seq<FilterElement>, from: int) -> int
    decreases elements.len() - from,
{
    if from < 0 || from >= elements.len() {
        elements.len() as int
    } else if element_error(elements[from], from as usize) is Some {
        from
    } else {
        first_wrong(elements, from + 1)
    }
}

/// The outcome for a filter array: the error of its first wrong element, or
/// the clauses of its elements, in order.
pub open spec fn parsed_array(elements: Seq<FilterElement>) -> Result<
    Seq<ClauseView>,
    FilterError,
> {
    let wrong = first_wrong(elements, 0);
    if wrong < elements.len() {
        Err(element_error(elements[wrong], wrong as usize)->0)
    } else {
        Ok(Seq::new(elements.len(), |i: int| clause_of(elements[i])))
    }
}

/// The outcome for a filter: a string is one expression, an array is a
/// conjunction of clauses, anything else is refused.
pub open spec fn parsed_filter(filter: FilterValue) -> Result<FilterView, FilterError> {
    match filter {
        FilterValue::String(expression) => Ok(FilterView::Expression(expression@)),
        FilterValue::Array(elements) => match parsed_array(elements@) {
            Ok(clauses) => Ok(FilterView::Clauses(clauses)),
            Err(error) => Err(error),
        },
        FilterValue::Other => Err(FilterError::ExpectedArray),
    }
}

/// The strings of a disjunction, or the position of its first item that is
/// no string.
fn parse_disjunction(items: &Vec<Option<String>>) -> (parsed: Result<Vec<String>, usize>)
    ensures
        match parsed {
            Ok(expressions) => first_non_string(items@, 0) == items@.len() && expressions@.len()
                == items@.len() && forall|i: int|
                0 <= i < items@.len() ==> (#[trigger] expressions@[i])@ == items@[i]->0@,
            Err(inner) => inner == first_non_string(items@, 0) && inner < items@.len(),
        },
{
    let mut expressions: Vec<String> = Vec::new();
    let mut i: usize = 0;
    while i < items.len()
        invariant
            i <= items.len(),
            expressions@.len() == i,
            first_non_string(items@, 0) == first_non_string(items@, i as int),
            forall|k: int| 0 <= k < i ==> (#[trigger] expressions@[k])@ == items@[k]->0@,
        decreases items.len() - i,
    {
        match &items[i] {
            Some(expression) => expressions.push(expression.clone()),
            None => {
                return Err(i);
            },
        }
        i += 1;
    }
    Ok(expressions)
}

/// Reads a filter array as a conjunction of clauses. The first element that
/// is neither a string nor an array of strings is an error.
pub fn parse_filter_array(arr: &Vec<FilterElement>) -> (parsed: Result<Vec<Clause>, FilterError>)
    ensures
        match parsed {
            Ok(clauses) => parsed_array(arr@) == Ok::<Seq<ClauseView>, FilterError>(
                clauses@.map_values(|clause: Clause| clause@),
            ),
            Err(error) => parsed_array(arr@) == Err::<Seq<ClauseView>, FilterError>(error),
        },
{
    let mut ands: Vec<Clause> = Vec::new();
    let mut i: usize = 0;
    while i < arr.len()
        invariant
            i <= arr.len(),
            ands@.len() == i,
            first_wrong(arr@, 0) == first_wrong(arr@, i as int),
            forall|k: int| 0 <= k < i ==> (#[trigger] ands@[k])@ == clause_of(arr@[k]),
        decreases arr.len() - i,
    {
        match &arr[i] {
            FilterElement::String(expression) => ands.push(Clause::One(expression.clone())),
            FilterElement::Array(items) => {
                match parse_disjunction(items) {
                    Ok(ors) => {
                        let clause = Clause::AnyOf(ors);
                        assert(clause@ == clause_of(arr@[i as int])) by {
                            assert(clause@->AnyOf_0 =~= clause_of(arr@[i as int])->AnyOf_0);
                        }
                        ands.push(clause);
                    },
                    Err(inner) => {
                        return Err(FilterError::ExpectedString { at: i, inner });
                    },
                }
            },
            FilterElement::Other => {
                return Err(FilterError::ExpectedStringOrStrings { at: i });
            },
        }
        i += 1;
    }
    assert(ands@.map_values(|clause: Clause| clause@) =~= Seq::new(
        arr@.len(),
        |i: int| clause_of(arr@[i]),
    ));
    Ok(ands)
}

/// Reads the filter of a request.
pub fn parse_filter(facets: &FilterValue) -> (parsed: Result<Filter, FilterError>)
    ensures
        match parsed {
            Ok(filter) => parsed_filter(*facets) == Ok::<FilterView, FilterError>(filter@),
            Err(error) => parsed_filter(*facets) == Err::<FilterView, FilterError>(error),
        },
{
    match facets {
        FilterValue::String(expression) => Ok(Filter::Expression(expression.clone())),
        FilterValue::Array(elements) => match parse_filter_array(elements) {
            Ok(clauses) => Ok(Filter::Clauses(clauses)),
            Err(error) => Err(error),
        },
        FilterValue::Other => Err(FilterError::ExpectedArray),
    }
}

} // verus!
