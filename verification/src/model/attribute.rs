//! The options that a database is declared with.

use vstd::prelude::*;

verus! {

/// The store that an option names.
#[derive(Debug, Clone, Copy, PartialEq, Eq, Structural)]
pub enum BackendOptionVariant {
    Sled,
    HashMap,
    BTreeMap,
    Trait,
}

/// One option of a database.
#[derive(Debug, Clone, Copy, PartialEq, Eq, Structural)]
pub enum Options {
    Backend(BackendOptionVariant),
    Async,
}

/// The stores that the options name, in their order.
pub open spec fn backends(options: Seq<Options>) -> Seq<BackendOptionVariant>
    decreases options.len(),
{
    if options.len() == 0 {
        seq![]
    } else {
        match options.last() {
            Options::Backend(backend) => backends(options.drop_last()).push(backend),
            Options::Async => backends(options.drop_last()),
        }
    }
}

} // verus!
