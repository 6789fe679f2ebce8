//! Per-field formatting directives and how two of them combine.

use vstd::prelude::*;

verus! {

/// What the formatter does to one field: wrap matches in highlight tags,
/// and crop the text to a budget of words.
#[derive(Clone, Copy, Debug, PartialEq, Eq)]
pub struct FormatOptions {
    pub highlight: bool,
    pub crop: Option<usize>,
}

impl FormatOptions {
    /// The directive that asks for nothing.
    pub open spec fn none() -> FormatOptions {
        FormatOptions { highlight: false, crop: None }
    }

    /// The combination of two directives: highlight if either asks for it,
    /// and the first crop budget that is set.
    pub open spec fn merged(self, other: FormatOptions) -> FormatOptions {
        FormatOptions {
            highlight: self.highlight || other.highlight,
            crop: if self.crop is Some {
                self.crop
            } else {
                other.crop
            },
        }
    }

    /// The directive handed down to the elements of an array or object:
    /// highlighting is kept, cropping is cleared.
    pub open spec fn inner(self) -> FormatOptions {
        FormatOptions { highlight: self.highlight, crop: None }
    }

    /// True when a positive crop budget is set.
    pub open spec fn crops(self) -> bool {
        self.crop is Some && self.crop->0 > 0
    }

    pub fn merge(self, other: Self) -> (merged: Self)
        ensures
            merged == self.merged(other),
    {
        let crop = match self.crop {
            Some(length) => Some(length),
            None => other.crop,
        };
        FormatOptions { highlight: self.highlight || other.highlight, crop }
    }

    /// Highlighting is symmetric under merge; the crop budget of the left
    /// operand wins whenever it is set, and otherwise the right one is taken.
    pub proof fn lemma_merge_law(a: FormatOptions, b: FormatOptions)
        ensures
            a.merged(b).highlight == b.merged(a).highlight,
            a.merged(b).highlight == (a.highlight || b.highlight),
            a.crop is Some ==> a.merged(b).crop == a.crop,
            a.crop is None ==> a.merged(b).crop == b.crop,
    {
    }

    /// Merging is associative, and the empty directive is neutral on both sides.
    pub proof fn lemma_merge_monoid(a: FormatOptions, b: FormatOptions, c: FormatOptions)
        ensures
            a.merged(b).merged(c) == a.merged(b.merged(c)),
            FormatOptions::none().merged(a) == a,
            a.merged(FormatOptions::none()) == a,
    {
    }
}

impl Default for FormatOptions {
    fn default() -> (options: Self)
        ensures
            options == FormatOptions::none(),
    {
        FormatOptions { highlight: false, crop: None }
    }
}

} // verus!
