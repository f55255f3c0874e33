//! How the score of one document comes about.
use vstd::prelude::*;

use crate::score::Score;

verus! {

/// A score with a description of how it was computed and the explanations
/// of the scores it was computed from.
pub struct Explanation {
    value: Score,
    description: String,
    details: Vec<Explanation>,
}

impl Explanation {
    /// The score explained.
    pub closed spec fn value_spec(&self) -> Score {
        self.value
    }

    /// The description, as text.
    pub closed spec fn description_spec(&self) -> Seq<char> {
        self.description@
    }

    /// How many sub-explanations it holds.
    pub closed spec fn details_len(&self) -> nat {
        self.details@.len()
    }

    /// An explanation of `value` with no details.
    pub fn new(description: String, value: Score) -> (r: Explanation)
        ensures
            r.value_spec() == value,
            r.description_spec() == description@,
            r.details_len() == 0,
    {
        Explanation { value, description, details: Vec::new() }
    }

    /// Appends the explanation of a score that this one was computed from.
    pub fn add_detail(&mut self, detail: Explanation)
        ensures
            final(self).value_spec() == old(self).value_spec(),
            final(self).description_spec() == old(self).description_spec(),
            final(self).details_len() == old(self).details_len() + 1,
    {
        self.details.push(detail);
    }

    /// The score explained.
    pub fn value(&self) -> (r: Score)
        ensures
            r == self.value_spec(),
    {
        self.value
    }

    /// The description.
    pub fn description(&self) -> (r: &str)
        ensures
            r@ == self.description_spec(),
    {
        self.description.as_str()
    }

    /// The sub-explanations, in the order they were added.
    pub fn details(&self) -> (r: &[Explanation])
        ensures
            r@.len() == self.details_len(),
    {
        self.details.as_slice()
    }
}

} // verus!
