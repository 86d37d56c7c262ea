//! One entry of a map, for changing it in place.
//!
//! An entry holds its key and whether the map had a value under it when the
//! entry was made. It does not hold the map: the map is handed to each of
//! its methods. An occupied entry is only good for a map that still has a
//! value under its key.

use vstd::prelude::*;
use vstd::pervasive::unreached;
use crate::traits::byte_store::ByteStore;
use crate::wrapper::map::{DbMap, Stored};
use crate::Error;

verus! {

/// A view into a single entry of a map, which may be vacant or occupied.
#[derive(Debug)]
pub enum Entry {
    Occupied(OccupiedEntry),
    Vacant(VacantEntry),
}

/// A view into an occupied entry of a map.
#[derive(Debug)]
pub struct OccupiedEntry {
    pub key: Vec<u8>,
}

/// A view into a vacant entry of a map.
#[derive(Debug)]
pub struct VacantEntry {
    pub key: Vec<u8>,
}

impl Entry {
    /// The key of the entry.
    pub open spec fn spec_key(&self) -> Seq<u8> {
        match self {
            Entry::Occupied(occupied) => occupied.key@,
            Entry::Vacant(vacant) => vacant.key@,
        }
    }

    /// The entry is good for `map`: where it is occupied, `map` has a value
    /// under its key.
    pub open spec fn fits(&self, map: Stored) -> bool {
        self is Occupied ==> map.get(self.spec_key()) is Some
    }

    /// The key of the entry.
    pub fn key(&self) -> (key: &Vec<u8>)
        ensures
            key@ == self.spec_key(),
    {
        match self {
            Entry::Occupied(occupied) => occupied.key(),
            Entry::Vacant(vacant) => vacant.key(),
        }
    }

    /// Ensures a value is in the entry by inserting `default` if it is
    /// vacant, and returns the value in the entry.
    pub fn or_insert<DS: ByteStore>(self, map: &mut DbMap<DS>, default: Vec<u8>) -> (value: Result<
        Vec<u8>,
        Error<DS::DbError>,
    >)
        requires
            self.fits(old(map)@),
        ensures
            match value {
                Ok(val) => if self is Occupied {
                    Some(val@) == old(map)@.get(self.spec_key()) && final(map)@ == old(map)@
                } else {
                    val@ == default@ && final(map)@ == old(map)@.inserted(self.spec_key(), default@)
                },
                Err(Error::SerializingKey(_)) => final(map)@ == old(map)@,
                Err(Error::Database(_)) => final(map)@.prefix == old(map)@.prefix,
                Err(_) => false,
            },
    {
        match self {
            Entry::Occupied(occupied) => occupied.get(map),
            Entry::Vacant(vacant) => {
                match map.insert(vacant.key.as_slice(), default.as_slice()) {
                    Ok(_) => Ok(default),
                    Err(e) => Err(e),
                }
            },
        }
    }

    /// Ensures a value is in the entry by inserting the default of its type
    /// if it is vacant, and returns the value in the entry. The default is
    /// given as the bytes that the value codec makes of it.
    pub fn or_default<DS: ByteStore>(self, map: &mut DbMap<DS>, default: Vec<u8>) -> (value: Result<
        Vec<u8>,
        Error<DS::DbError>,
    >)
        requires
            self.fits(old(map)@),
        ensures
            match value {
                Ok(val) => if self is Occupied {
                    Some(val@) == old(map)@.get(self.spec_key()) && final(map)@ == old(map)@
                } else {
                    val@ == default@ && final(map)@ == old(map)@.inserted(self.spec_key(), default@)
                },
                Err(Error::SerializingKey(_)) => final(map)@ == old(map)@,
                Err(Error::Database(_)) => final(map)@.prefix == old(map)@.prefix,
                Err(_) => false,
            },
    {
        self.or_insert(map, default)
    }

    /// Ensures a value is in the entry by inserting what `default` returns
    /// if it is vacant, and returns the value in the entry. `default` is
    /// only called for a vacant entry.
    pub fn or_insert_with<DS: ByteStore, F: FnOnce() -> Vec<u8>>(
        self,
        map: &mut DbMap<DS>,
        default: F,
    ) -> (value: Result<Vec<u8>, Error<DS::DbError>>)
        requires
            self.fits(old(map)@),
            self is Vacant ==> default.requires(()),
        ensures
            match value {
                Ok(val) => if self is Occupied {
                    Some(val@) == old(map)@.get(self.spec_key()) && final(map)@ == old(map)@
                } else {
                    default.ensures((), val) && final(map)@ == old(map)@.inserted(
                        self.spec_key(),
                        val@,
                    )
                },
                Err(Error::SerializingKey(_)) => final(map)@ == old(map)@,
                Err(Error::Database(_)) => final(map)@.prefix == old(map)@.prefix,
                Err(_) => false,
            },
    {
        match self {
            Entry::Occupied(occupied) => occupied.get(map),
            Entry::Vacant(vacant) => {
                let value = default();
                match map.insert(vacant.key.as_slice(), value.as_slice()) {
                    Ok(_) => Ok(value),
                    Err(e) => Err(e),
                }
            },
        }
    }

    /// Ensures a value is in the entry by inserting what `default` makes of
    /// the key if it is vacant, and returns the value in the entry.
    /// `default` is only called for a vacant entry.
    pub fn or_insert_with_key<DS: ByteStore, F: FnOnce(&Vec<u8>) -> Vec<u8>>(
        self,
        map: &mut DbMap<DS>,
        default: F,
    ) -> (value: Result<Vec<u8>, Error<DS::DbError>>)
        requires
            self.fits(old(map)@),
            self is Vacant ==> forall|key: &Vec<u8>| key@ == self.spec_key() ==> default.requires(
                (key,),
            ),
        ensures
            match value {
                Ok(val) => if self is Occupied {
                    Some(val@) == old(map)@.get(self.spec_key()) && final(map)@ == old(map)@
                } else {
                    made_of_key(default, self.spec_key(), val) && final(map)@ == old(
                        map,
                    )@.inserted(self.spec_key(), val@)
                },
                Err(Error::SerializingKey(_)) => final(map)@ == old(map)@,
                Err(Error::Database(_)) => final(map)@.prefix == old(map)@.prefix,
                Err(_) => false,
            },
    {
        match self {
            Entry::Occupied(occupied) => occupied.get(map),
            Entry::Vacant(vacant) => {
                let given = vacant.key();
                let value = default(given);
                match map.insert(vacant.key.as_slice(), value.as_slice()) {
                    Ok(_) => Ok(value),
                    Err(e) => Err(e),
                }
            },
        }
    }

    /// Changes the value of an occupied entry to what `f` makes of it, and
    /// leaves a vacant entry as it is. Returns the entry. `f` is only called
    /// for an occupied entry.
    pub fn and_modify<DS: ByteStore, F: FnOnce(Vec<u8>) -> Vec<u8>>(
        self,
        map: &mut DbMap<DS>,
        f: F,
    ) -> (entry: Result<Entry, Error<DS::DbError>>)
        requires
            self.fits(old(map)@),
            self is Occupied ==> forall|value: Vec<u8>|
                Some(value@) == old(map)@.get(self.spec_key()) ==> f.requires((value,)),
        ensures
            match entry {
                Ok(same) => same == self && if self is Occupied {
                    modified(f, old(map)@, self.spec_key(), final(map)@)
                } else {
                    final(map)@ == old(map)@
                },
                Err(Error::SerializingKey(_)) => final(map)@ == old(map)@,
                Err(Error::Database(_)) => final(map)@.prefix == old(map)@.prefix,
                Err(_) => false,
            },
    {
        match &self {
            Entry::Occupied(occupied) => {
                let value = match occupied.get(map) {
                    Ok(value) => value,
                    Err(e) => {
                        return Err(e);
                    },
                };
                let new = f(value);
                match occupied.insert(map, new) {
                    Ok(_) => {},
                    Err(e) => {
                        return Err(e);
                    },
                }
            },
            Entry::Vacant(_) => {},
        }
        Ok(self)
    }

    /// Sets the value of the entry and returns it as an occupied entry.
    pub fn insert_entry<DS: ByteStore>(self, map: &mut DbMap<DS>, value: Vec<u8>) -> (entry: Result<
        OccupiedEntry,
        Error<DS::DbError>,
    >)
        ensures
            match entry {
                Ok(occupied) => {
                    &&& occupied.key@ == self.spec_key()
                    &&& final(map)@ == old(map)@.inserted(self.spec_key(), value@)
                },
                Err(Error::SerializingKey(_)) => final(map)@ == old(map)@,
                Err(Error::Database(_)) => final(map)@.prefix == old(map)@.prefix,
                Err(_) => false,
            },
    {
        match self {
            Entry::Occupied(occupied) => {
                match map.insert(occupied.key.as_slice(), value.as_slice()) {
                    Ok(_) => Ok(occupied),
                    Err(e) => Err(e),
                }
            },
            Entry::Vacant(vacant) => vacant.insert_entry(map, value),
        }
    }
}

/// `default` made `value` of the key `key`.
pub open spec fn made_of_key<F: FnOnce(&Vec<u8>) -> Vec<u8>>(
    default: F,
    key: Seq<u8>,
    value: Vec<u8>,
) -> bool {
    exists|given: &Vec<u8>| given@ == key && #[trigger] call_ensures(default, (given,), value)
}

/// `after` is `before` with the value under `key` replaced by what `f`
/// made of it.
pub open spec fn modified<F: FnOnce(Vec<u8>) -> Vec<u8>>(
    f: F,
    before: Stored,
    key: Seq<u8>,
    after: Stored,
) -> bool {
    exists|value: Vec<u8>, new: Vec<u8>|
        Some(value@) == before.get(key) && #[trigger] call_ensures(f, (value,), new) && after
            == before.inserted(key, new@)
}

impl OccupiedEntry {
    /// The key of the entry.
    pub fn key(&self) -> (key: &Vec<u8>)
        ensures
            key@ == self.key@,
    {
        &self.key
    }

    /// The value of the entry.
    pub fn get<DS: ByteStore>(&self, map: &DbMap<DS>) -> (value: Result<
        Vec<u8>,
        Error<DS::DbError>,
    >)
        requires
            map@.get(self.key@) is Some,
        ensures
            match value {
                Ok(val) => Some(val@) == map@.get(self.key@),
                Err(Error::SerializingKey(_)) | Err(Error::Database(_)) => true,
                Err(_) => false,
            },
    {
        match map.get(self.key.as_slice()) {
            Ok(Some(value)) => Ok(value),
            Ok(None) => unreached(),
            Err(e) => Err(e),
        }
    }

    /// Sets the value of the entry and returns the value it had.
    pub fn insert<DS: ByteStore>(&self, map: &mut DbMap<DS>, value: Vec<u8>) -> (previous: Result<
        Vec<u8>,
        Error<DS::DbError>,
    >)
        requires
            old(map)@.get(self.key@) is Some,
        ensures
            match previous {
                Ok(val) => {
                    &&& Some(val@) == old(map)@.get(self.key@)
                    &&& final(map)@ == old(map)@.inserted(self.key@, value@)
                },
                Err(Error::SerializingKey(_)) => final(map)@ == old(map)@,
                Err(Error::Database(_)) => final(map)@.prefix == old(map)@.prefix,
                Err(_) => false,
            },
    {
        match map.insert(self.key.as_slice(), value.as_slice()) {
            Ok(Some(previous)) => Ok(previous),
            Ok(None) => unreached(),
            Err(e) => Err(e),
        }
    }

    /// Takes the value of the entry out of the map and returns it.
    pub fn remove<DS: ByteStore>(&self, map: &mut DbMap<DS>) -> (value: Result<
        Vec<u8>,
        Error<DS::DbError>,
    >)
        requires
            old(map)@.get(self.key@) is Some,
        ensures
            match value {
                Ok(val) => {
                    &&& Some(val@) == old(map)@.get(self.key@)
                    &&& final(map)@ == old(map)@.removed(self.key@)
                },
                Err(Error::SerializingKey(_)) => final(map)@ == old(map)@,
                Err(Error::Database(_)) => final(map)@.prefix == old(map)@.prefix,
                Err(_) => false,
            },
    {
        match map.remove(self.key.as_slice()) {
            Ok(Some(value)) => Ok(value),
            Ok(None) => unreached(),
            Err(e) => Err(e),
        }
    }

    /// Takes the entry out of the map and returns its key and value.
    pub fn remove_entry<DS: ByteStore>(self, map: &mut DbMap<DS>) -> (entry: Result<
        (Vec<u8>, Vec<u8>),
        Error<DS::DbError>,
    >)
        requires
            old(map)@.get(self.key@) is Some,
        ensures
            match entry {
                Ok((key, val)) => {
                    &&& key@ == self.key@
                    &&& Some(val@) == old(map)@.get(self.key@)
                    &&& final(map)@ == old(map)@.removed(self.key@)
                },
                Err(Error::SerializingKey(_)) => final(map)@ == old(map)@,
                Err(Error::Database(_)) => final(map)@.prefix == old(map)@.prefix,
                Err(_) => false,
            },
    {
        match self.remove(map) {
            Ok(value) => Ok((self.key, value)),
            Err(e) => Err(e),
        }
    }
}

impl VacantEntry {
    /// The key of the entry.
    pub fn key(&self) -> (key: &Vec<u8>)
        ensures
            key@ == self.key@,
    {
        &self.key
    }

    /// Takes ownership of the key.
    pub fn into_key(self) -> (key: Vec<u8>)
        ensures
            key@ == self.key@,
    {
        self.key
    }

    /// Sets the value of the entry.
    pub fn insert<DS: ByteStore>(self, map: &mut DbMap<DS>, value: Vec<u8>) -> (done: Result<
        (),
        Error<DS::DbError>,
    >)
        ensures
            match done {
                Ok(()) => final(map)@ == old(map)@.inserted(self.key@, value@),
                Err(Error::SerializingKey(_)) => final(map)@ == old(map)@,
                Err(Error::Database(_)) => final(map)@.prefix == old(map)@.prefix,
                Err(_) => false,
            },
    {
        match map.insert(self.key.as_slice(), value.as_slice()) {
            Ok(_) => Ok(()),
            Err(e) => Err(e),
        }
    }

    /// Sets the value of the entry and returns it as an occupied entry.
    pub fn insert_entry<DS: ByteStore>(self, map: &mut DbMap<DS>, value: Vec<u8>) -> (entry: Result<
        OccupiedEntry,
        Error<DS::DbError>,
    >)
        ensures
            match entry {
                Ok(occupied) => {
                    &&& occupied.key@ == self.key@
                    &&& final(map)@ == old(map)@.inserted(self.key@, value@)
                },
                Err(Error::SerializingKey(_)) => final(map)@ == old(map)@,
                Err(Error::Database(_)) => final(map)@.prefix == old(map)@.prefix,
                Err(_) => false,
            },
    {
        match map.insert(self.key.as_slice(), value.as_slice()) {
            Ok(_) => Ok(OccupiedEntry { key: self.key }),
            Err(e) => Err(e),
        }
    }
}

impl<DS: ByteStore> DbMap<DS> {
    /// The entry of the map for `key`, for changing it in place.
    pub fn entry(&self, key: Vec<u8>) -> (entry: Result<Entry, Error<DS::DbError>>)
        ensures
            match entry {
                Ok(found) => {
                    &&& found.spec_key() == key@
                    &&& found is Occupied <==> self@.get(key@) is Some
                    &&& found.fits(self@)
                },
                Err(Error::SerializingKey(_)) | Err(Error::Database(_)) => true,
                Err(_) => false,
            },
    {
        match self.contains_key(key.as_slice()) {
            Ok(true) => Ok(Entry::Occupied(OccupiedEntry { key })),
            Ok(false) => Ok(Entry::Vacant(VacantEntry { key })),
            Err(e) => Err(e),
        }
    }
}

} // verus!
