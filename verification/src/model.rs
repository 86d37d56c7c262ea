//! The model of a database: which fields it has, how each is wrapped, and
//! which store can hold them.

use vstd::prelude::*;

pub mod attribute;
pub mod backend;
pub mod key;

use backend::{Bounds, ExtraBound};
pub use key::DbKey;

verus! {

/// How a field of the database is wrapped.
#[derive(Clone, Copy, Debug, PartialEq, Eq, Structural)]
pub enum Wrapper {
    Vec,
    VecDeque,
    HashMap,
    DefaultTrait,
    DefaultValue,
    Option,
}

impl Wrapper {
    /// What the wrapper needs of a store beyond reading and writing: a list
    /// and a deque find their ends by the order of the keys, and a map walks
    /// its entries by it.
    pub open spec fn needs(self) -> Set<ExtraBound> {
        match self {
            Wrapper::Vec | Wrapper::VecDeque | Wrapper::HashMap => set![ExtraBound::Ordered],
            _ => Set::empty(),
        }
    }

    /// What the wrapper needs of a store beyond reading and writing.
    pub fn needed_traits(&self) -> (needed: Bounds)
        ensures
            needed@ == self.needs(),
    {
        match self {
            Wrapper::Vec | Wrapper::VecDeque | Wrapper::HashMap => {
                let needed = Bounds { atomic: false, ordered: true };
                needed
            },
            _ => {
                let needed = Bounds { atomic: false, ordered: false };
                needed
            },
        }
    }
}

} // verus!
