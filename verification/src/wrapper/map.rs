//! A map in a store: the entry with the key `k` of the map with prefix `p`
//! lives under `p` followed by `k`.

use vstd::prelude::*;
use bincode::error::EncodeError;
use crate::key::{encode_sub_key, has_prefix, scalar_key, sub_key};
use crate::order::precedes_at;
use crate::traits::byte_store::{
    entry_above, lookup, opt_bytes, ByteStore, Contents, Ordered,
};
use crate::traits::data_store;
use crate::Error;

pub mod entry;
pub mod extend;
pub mod iterator;

pub use entry::{Entry, OccupiedEntry, VacantEntry};
pub use iterator::{lemma_walk_ends, Iter, Keys, Values};

verus! {

/// The key of one entry of a map.
#[derive(Clone, Copy, Debug)]
pub struct Prefixed<'a> {
    pub prefix: u8,
    pub key: &'a [u8],
}

impl<'a> Prefixed<'a> {
    /// The bytes of the key.
    pub open spec fn bytes(&self) -> Seq<u8> {
        sub_key(self.prefix, self.key@)
    }

    /// The key as the store holds it.
    pub fn encode(&self) -> (encoded: Result<Vec<u8>, EncodeError>)
        ensures
            encoded matches Ok(bytes) ==> bytes@ == self.bytes(),
    {
        encode_sub_key(self.prefix, self.key)
    }
}

/// `key` is the key of an entry that a walk through the map with the prefix
/// `prefix` meets: it starts with the prefix and goes on after it.
pub open spec fn is_listed(key: Seq<u8>, prefix: u8) -> bool {
    has_prefix(key, prefix) && key.len() > 1
}

/// What a map is: the contents of its store, and its prefix.
pub struct Stored {
    pub contents: Contents,
    pub prefix: u8,
}

impl Stored {
    /// The key in the store of the entry with the key `key`.
    pub open spec fn full_key(self, key: Seq<u8>) -> Seq<u8> {
        sub_key(self.prefix, key)
    }

    /// The value under `key`.
    pub open spec fn get(self, key: Seq<u8>) -> Option<Seq<u8>> {
        lookup(self.contents, self.full_key(key))
    }

    /// The entries of the map, by their keys without the prefix.
    pub open spec fn entries(self) -> Map<Seq<u8>, Seq<u8>> {
        Map::new(
            |key: Seq<u8>| self.contents.contains_key(self.full_key(key)),
            |key: Seq<u8>| self.contents[self.full_key(key)],
        )
    }

    /// The map after `value` was put under `key`.
    pub open spec fn inserted(self, key: Seq<u8>, value: Seq<u8>) -> Stored {
        Stored { contents: self.contents.insert(self.full_key(key), value), ..self }
    }

    /// The map after `key` was removed.
    pub open spec fn removed(self, key: Seq<u8>) -> Stored {
        Stored { contents: self.contents.remove(self.full_key(key)), ..self }
    }

    /// The keys in the store of the entries that a walk through the map
    /// meets: all but the entry with the empty key.
    pub open spec fn listed(self) -> Set<Seq<u8>> {
        Set::new(|full: Seq<u8>| self.contents.contains_key(full) && is_listed(full, self.prefix))
    }

    /// The map after every entry that a walk meets was removed.
    pub open spec fn cleared(self) -> Stored {
        Stored { contents: self.contents.remove_keys(self.listed()), ..self }
    }

    /// The map after each of `items` was inserted, the first of them first.
    pub open spec fn extended(self, items: Seq<(Seq<u8>, Seq<u8>)>) -> Stored
        decreases items.len(),
    {
        if items.len() == 0 {
            self
        } else {
            self.extended(items.drop_last()).inserted(items.last().0, items.last().1)
        }
    }

    /// What a walk that has come as far as `cursor` meets next: the entry
    /// just after `cursor`, unless it belongs to another collection.
    pub open spec fn next_after(self, cursor: Seq<u8>) -> Option<(Seq<u8>, Seq<u8>)> {
        match entry_above(self.contents, cursor) {
            Some((full, value)) => if has_prefix(full, self.prefix) {
                Some((full, value))
            } else {
                None
            },
            None => None,
        }
    }
}

/// What each of `items` holds.
pub open spec fn pair_views(items: Seq<(Vec<u8>, Vec<u8>)>) -> Seq<(Seq<u8>, Seq<u8>)> {
    Seq::new(items.len(), |i: int| (items[i].0@, items[i].1@))
}

/// Mimics the API of `HashMap` on a store.
#[derive(Debug)]
pub struct DbMap<DS: ByteStore> {
    ds: DS,
    prefix: u8,
}

impl<DS: ByteStore> View for DbMap<DS> {
    type V = Stored;

    closed spec fn view(&self) -> Stored {
        Stored { contents: self.ds.contents(), prefix: self.prefix }
    }
}

impl<DS: ByteStore> DbMap<DS> {
    /// A map on `ds` under `prefix`.
    pub fn new(ds: DS, prefix: u8) -> (map: Self)
        ensures
            map@ == (Stored { contents: ds.contents(), prefix }),
    {
        DbMap { ds, prefix }
    }

    /// Gives the store back.
    pub fn into_store(self) -> (ds: DS)
        ensures
            ds.contents() == self@.contents,
    {
        self.ds
    }

    /// Inserts a key-value pair into the map and returns the value that was
    /// under the key before.
    pub fn insert(&mut self, key: &[u8], value: &[u8]) -> (previous: Result<
        Option<Vec<u8>>,
        Error<DS::DbError>,
    >)
        ensures
            match previous {
                Ok(prev) => {
                    &&& opt_bytes(prev) == old(self)@.get(key@)
                    &&& final(self)@ == old(self)@.inserted(key@, value@)
                },
                Err(Error::SerializingKey(_)) => final(self)@ == old(self)@,
                Err(Error::Database(_)) => final(self)@.prefix == old(self)@.prefix,
                Err(_) => false,
            },
    {
        let key = Prefixed { prefix: self.prefix, key };
        data_store::insert(&mut self.ds, key.encode(), value)
    }

    /// The value under `key`.
    pub fn get(&self, key: &[u8]) -> (found: Result<Option<Vec<u8>>, Error<DS::DbError>>)
        ensures
            match found {
                Ok(val) => opt_bytes(val) == self@.get(key@),
                Err(Error::SerializingKey(_)) | Err(Error::Database(_)) => true,
                Err(_) => false,
            },
    {
        let key = Prefixed { prefix: self.prefix, key };
        data_store::get(&self.ds, key.encode())
    }

    /// Removes `key` from the map and returns the value that was under it.
    pub fn remove(&mut self, key: &[u8]) -> (removed: Result<Option<Vec<u8>>, Error<DS::DbError>>)
        ensures
            match removed {
                Ok(val) => {
                    &&& opt_bytes(val) == old(self)@.get(key@)
                    &&& final(self)@ == old(self)@.removed(key@)
                },
                Err(Error::SerializingKey(_)) => final(self)@ == old(self)@,
                Err(Error::Database(_)) => final(self)@.prefix == old(self)@.prefix,
                Err(_) => false,
            },
    {
        let key = Prefixed { prefix: self.prefix, key };
        data_store::remove(&mut self.ds, key.encode())
    }

    /// Whether the map has a value under `key`.
    pub fn contains_key(&self, key: &[u8]) -> (found: Result<bool, Error<DS::DbError>>)
        ensures
            match found {
                Ok(present) => present == self@.get(key@).is_some(),
                Err(Error::SerializingKey(_)) | Err(Error::Database(_)) => true,
                Err(_) => false,
            },
    {
        let key = Prefixed { prefix: self.prefix, key };
        match data_store::get(&self.ds, key.encode()) {
            Ok(val) => Ok(val.is_some()),
            Err(e) => Err(e),
        }
    }

}

impl<DS: Ordered> DbMap<DS> {
    /// Clears the map: removes every entry that a walk through it meets.
    pub fn clear(&mut self) -> (cleared: Result<(), Error<DS::DbError>>)
        ensures
            match cleared {
                Ok(()) => final(self)@ == old(self)@.cleared(),
                Err(Error::Database(_)) => final(self)@.prefix == old(self)@.prefix,
                Err(_) => false,
            },
    {
        let start: Vec<u8> = vec![self.prefix];
        loop
            invariant
                self@.prefix == old(self)@.prefix,
                start@ == scalar_key(self@.prefix),
                forall|full: Seq<u8>|
                    !is_listed(full, self@.prefix) ==> #[trigger] lookup(self@.contents, full)
                        == lookup(old(self)@.contents, full),
                forall|full: Seq<u8>| #[trigger]
                    self@.contents.contains_key(full) ==> old(self)@.contents.contains_key(full)
                        && self@.contents[full] == old(self)@.contents[full],
            decreases self@.contents.dom().len(),
        {
            let ghost before = self@;
            proof {
                self.ds.lemma_finite();
            }
            let next = match self.ds.get_gt(start.as_slice()) {
                Ok(next) => next,
                Err(e) => {
                    return Err(Error::Database(e));
                },
            };
            let full = match next {
                Some((full, _value)) => full,
                None => {
                    proof {
                        lemma_walk_ends(self@);
                        lemma_cleared(old(self)@, self@);
                    }
                    return Ok(());
                },
            };
            if full.len() == 0 || full[0] != self.prefix {
                proof {
                    lemma_walk_ends(self@);
                    lemma_cleared(old(self)@, self@);
                }
                return Ok(());
            }
            match self.ds.remove(full.as_slice()) {
                Ok(_) => {},
                Err(e) => {
                    return Err(Error::Database(e));
                },
            }
            proof {
                assert forall|other: Seq<u8>| !is_listed(other, self@.prefix) implies #[trigger] lookup(
                    self@.contents,
                    other,
                ) == lookup(old(self)@.contents, other) by {
                    assert(lookup(before.contents, other) == lookup(old(self)@.contents, other));
                }
                assert forall|other: Seq<u8>| #[trigger]
                    self@.contents.contains_key(other) implies old(self)@.contents.contains_key(
                    other,
                ) && self@.contents[other] == old(self)@.contents[other] by {}
            }
        }
    }

    /// Whether a walk through the map meets no entry.
    pub fn is_empty(&self) -> (empty: Result<bool, Error<DS::DbError>>)
        ensures
            match empty {
                Ok(none) => none <==> self@.listed() == Set::<Seq<u8>>::empty(),
                Err(Error::Database(_)) => true,
                Err(_) => false,
            },
    {
        let mut cursor = self.iter();
        match cursor.next(self) {
            None => {
                proof {
                    self.ds.lemma_finite();
                    lemma_walk_ends(self@);
                    assert(self@.listed() =~= Set::empty());
                }
                Ok(true)
            },
            Some(Ok(_)) => {
                proof {
                    let full = cursor.prev_key_bytes@;
                    assert(precedes_at(
                        scalar_key(self@.prefix),
                        full,
                        choose|at: int| precedes_at(scalar_key(self@.prefix), full, at),
                    ));
                    assert(self@.listed().contains(full));
                }
                Ok(false)
            },
            Some(Err(e)) => Err(e),
        }
    }
}

/// A map is cleared where nothing is left of it for a walk to meet and the
/// rest of its store is as it was.
proof fn lemma_cleared(before: Stored, after: Stored)
    requires
        after.prefix == before.prefix,
        forall|full: Seq<u8>| after.contents.contains_key(full) ==> !is_listed(full, after.prefix),
        forall|full: Seq<u8>|
            !is_listed(full, after.prefix) ==> #[trigger] lookup(after.contents, full) == lookup(
                before.contents,
                full,
            ),
        forall|full: Seq<u8>| #[trigger]
            after.contents.contains_key(full) ==> before.contents.contains_key(full)
                && after.contents[full] == before.contents[full],
    ensures
        after == before.cleared(),
{
    let target = before.contents.remove_keys(before.listed());
    assert forall|full: Seq<u8>| after.contents.contains_key(full) <==> target.contains_key(
        full,
    ) by {
        if target.contains_key(full) {
            assert(lookup(after.contents, full) == lookup(before.contents, full));
        }
    }
    assert(after.contents =~= target);
}

/// Keys of one map that differ are kept under keys that differ.
pub proof fn lemma_full_keys_differ(prefix: u8, first: Seq<u8>, second: Seq<u8>)
    requires
        first != second,
    ensures
        sub_key(prefix, first) != sub_key(prefix, second),
{
    let a = sub_key(prefix, first);
    let b = sub_key(prefix, second);
    if a == b {
        assert(a.subrange(1, a.len() as int) =~= first);
        assert(b.subrange(1, b.len() as int) =~= second);
    }
}

/// A value that was inserted is found under its key, until it is removed;
/// and no other key of the map reads differently for it.
pub proof fn lemma_insert_then_get(map: Stored, key: Seq<u8>, value: Seq<u8>, other: Seq<u8>)
    ensures
        map.inserted(key, value).get(key) == Some(value),
        map.removed(key).get(key) is None,
        other != key ==> map.inserted(key, value).get(other) == map.get(other),
        other != key ==> map.removed(key).get(other) == map.get(other),
{
    if other != key {
        lemma_full_keys_differ(map.prefix, other, key);
    }
}

/// Two maps in one store stay apart: what is inserted into one, removed
/// from it, or cleared from it changes nothing that a map with another
/// prefix holds or meets on a walk.
pub proof fn lemma_maps_stay_apart(map: Stored, other: u8, key: Seq<u8>, value: Seq<u8>)
    requires
        other != map.prefix,
    ensures
        (Stored { prefix: other, ..map.inserted(key, value) }).entries() == (Stored {
            prefix: other,
            ..map
        }).entries(),
        (Stored { prefix: other, ..map.removed(key) }).entries() == (Stored {
            prefix: other,
            ..map
        }).entries(),
        (Stored { prefix: other, ..map.cleared() }).entries() == (Stored {
            prefix: other,
            ..map
        }).entries(),
        (Stored { prefix: other, ..map.inserted(key, value) }).listed() == (Stored {
            prefix: other,
            ..map
        }).listed(),
        (Stored { prefix: other, ..map.removed(key) }).listed() == (Stored {
            prefix: other,
            ..map
        }).listed(),
        (Stored { prefix: other, ..map.cleared() }).listed() == (Stored {
            prefix: other,
            ..map
        }).listed(),
{
    let apart = Stored { prefix: other, ..map };
    assert forall|sub: Seq<u8>| has_prefix(#[trigger] apart.full_key(sub), other) by {}
}

/// Clearing is idempotent: after a map was cleared a walk through it meets
/// nothing, and clearing it again changes nothing.
pub proof fn lemma_clear_twice(map: Stored)
    ensures
        map.cleared().listed() == Set::<Seq<u8>>::empty(),
        map.cleared().cleared() == map.cleared(),
{
    let once = map.cleared();
    assert(once.contents.remove_keys(Set::empty()) =~= once.contents);
}

} // verus!
