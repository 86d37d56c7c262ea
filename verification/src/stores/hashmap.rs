//! A store in memory that offers reading and writing and nothing more.

use vstd::prelude::*;
use crate::stores::btreemap::BTreeMap;
use crate::traits::byte_store::{ByteStore, Contents};

verus! {

/// How the store in memory fails.
#[derive(Clone, Copy, Debug, PartialEq, Eq, Structural)]
pub enum Error {
    /// The store was poisoned: a user of it gave up while changing it.
    Poisoned,
}

/// A very simple store that keeps nothing when dropped and needs no path.
/// It does not order its keys for its users, so it supports scalars only.
/// Use the ordered store in memory instead.
#[derive(Debug)]
pub struct HashMap {
    entries: BTreeMap,
}

impl HashMap {
    /// Whether the store was poisoned: every use of it then fails.
    pub closed spec fn is_poisoned(&self) -> bool {
        self.entries.is_poisoned()
    }

    /// An empty store.
    pub fn new() -> (store: Self)
        ensures
            store.contents() == Contents::empty(),
            !store.is_poisoned(),
    {
        HashMap { entries: BTreeMap::new() }
    }

    /// Poisons the store, so that every later use of it fails.
    pub fn force_error(&mut self)
        ensures
            final(self).is_poisoned(),
            final(self).contents() == old(self).contents(),
    {
        self.entries.force_error();
    }
}

impl Default for HashMap {
    /// An empty store.
    fn default() -> (store: Self)
        ensures
            store.contents() == Contents::empty(),
            !store.is_poisoned(),
    {
        HashMap::new()
    }
}

impl ByteStore for HashMap {
    type DbError = Error;

    closed spec fn contents(&self) -> Contents {
        self.entries.contents()
    }

    proof fn lemma_finite(&self) {
        self.entries.lemma_finite();
    }

    fn get(&self, key: &[u8]) -> (found: Result<Option<Vec<u8>>, Error>)
        ensures
            found is Err <==> self.is_poisoned(),
    {
        match self.entries.get(key) {
            Ok(val) => Ok(val),
            Err(_) => Err(Error::Poisoned),
        }
    }

    fn remove(&mut self, key: &[u8]) -> (removed: Result<Option<Vec<u8>>, Error>)
        ensures
            removed is Err <==> old(self).is_poisoned(),
            final(self).is_poisoned() == old(self).is_poisoned(),
            removed is Err ==> final(self).contents() == old(self).contents(),
    {
        match self.entries.remove(key) {
            Ok(val) => Ok(val),
            Err(_) => Err(Error::Poisoned),
        }
    }

    fn insert(&mut self, key: &[u8], val: &[u8]) -> (previous: Result<Option<Vec<u8>>, Error>)
        ensures
            previous is Err <==> old(self).is_poisoned(),
            final(self).is_poisoned() == old(self).is_poisoned(),
            previous is Err ==> final(self).contents() == old(self).contents(),
    {
        match self.entries.insert(key, val) {
            Ok(prev) => Ok(prev),
            Err(_) => Err(Error::Poisoned),
        }
    }
}

} // verus!
