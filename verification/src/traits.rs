//! The capabilities a store has to offer. Implement them to use a database
//! of your own.

use vstd::prelude::*;

pub mod byte_store;
pub mod data_store;

pub use byte_store::ByteStore;

verus! {

/// Why a collection could not be extended, and what is left to add.
#[derive(Debug)]
pub struct ExtendError<T, I, E> {
    /// The item that was being added when the error occurred.
    pub unadded: T,
    /// The items after it, none of which was added.
    pub iter: I,
    /// The error that occurred.
    pub error: E,
}

} // verus!
