//! What the errors of a model have in common.

use vstd::prelude::*;

verus! {

/// An error that may know how to mend what caused it.
pub trait Help {
    /// The advice that goes with the error, if there is any.
    fn help(&self) -> Option<String>;
}

} // verus!
