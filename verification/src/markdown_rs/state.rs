//! What a step of the tokenizer says about how to go on.

use vstd::prelude::*;

verus! {

/// The result of a step.
#[derive(Clone, Copy, Debug, PartialEq, Eq, Structural)]
pub enum State {
    /// Go on at the given offset.
    Next(usize),
    /// The construct is there and complete.
    Okay,
    /// The construct is not there.
    Nok,
}

} // verus!
