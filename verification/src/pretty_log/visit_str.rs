//! Fields of events and spans, taken as text.

use vstd::prelude::*;

verus! {

/// Something that takes the fields of an event or span as text.
pub trait VisitStr {
    /// `after` is what `self` becomes when the field is recorded.
    spec fn recorded(&self, after: &Self, name: Seq<char>, value: Seq<char>) -> bool;

    /// Records a field with its value.
    fn record_str(&mut self, name: &str, value: &str)
        ensures
            old(self).recorded(final(self), name@, value@),
    ;
}

/// Hands every field on as text.
pub struct VisitAsStr<'a, T>(pub &'a mut T);

} // verus!
