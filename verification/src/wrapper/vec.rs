//! A list in a store: slot `i` of the list with prefix `p` lives under the
//! key of `p` and `i`, and a counter holds the number of slots.

use vstd::prelude::*;
use bincode::error::{DecodeError, EncodeError};
use crate::key::{
    decode_slot_key, encode_index_key, has_prefix, index_key, lemma_not_before_beginning,
    lemma_slot_index, slot_index,
};
use crate::traits::byte_store::{
    entry_below, lookup, opt_bytes, ByteStore, Contents, Ordered,
};
use crate::traits::data_store;
use crate::Error;

pub mod extend;
pub mod history;
pub mod iterator;

pub use iterator::Iter;

verus! {

/// The key of one slot of a list.
#[derive(Clone, Copy, Debug, PartialEq, Eq, Structural, Hash)]
pub struct Prefixed {
    pub prefix: u8,
    pub index: usize,
}

impl Prefixed {
    /// The bytes of the key.
    pub open spec fn bytes(&self) -> Seq<u8> {
        index_key(self.prefix, self.index as u64)
    }

    /// The index of the slot.
    pub fn index(&self) -> (index: usize)
        ensures
            index == self.index,
    {
        self.index
    }

    /// The key after every slot that a list with this prefix can have.
    pub fn max(prefix: u8) -> (key: Self)
        ensures
            key == (Prefixed { prefix, index: usize::MAX }),
    {
        Prefixed { prefix, index: usize::MAX }
    }

    /// The key as the store holds it.
    pub fn encode(&self) -> (encoded: Result<std::vec::Vec<u8>, EncodeError>)
        ensures
            encoded matches Ok(bytes) ==> bytes@ == self.bytes(),
    {
        encode_index_key(self.prefix, self.index as u64)
    }

    /// The key that starts `bytes`.
    pub fn decode(bytes: &[u8]) -> (decoded: Result<Prefixed, DecodeError>)
        ensures
            decoded matches Ok(key) ==> bytes@.len() >= 9 && bytes@.subrange(0, 9) == key.bytes(),
    {
        Prefixed::from_decoded(decode_slot_key(bytes))
    }

    /// The key that the key codec decoded, from what the codec returned: the
    /// prefix and the index that it read make the key, and an error of the
    /// codec is handed on as it is.
    pub fn from_decoded(decoded: Result<(u8, usize), DecodeError>) -> (key: Result<
        Prefixed,
        DecodeError,
    >)
        ensures
            match decoded {
                Ok((prefix, index)) => key matches Ok(found) && found == (Prefixed {
                    prefix,
                    index,
                }),
                Err(e) => key == Err::<Prefixed, DecodeError>(e),
            },
    {
        match decoded {
            Ok((prefix, index)) => Ok(Prefixed { prefix, index }),
            Err(e) => Err(e),
        }
    }
}

/// The key of slot `i` of the list with the prefix `prefix`.
pub open spec fn slot_key(prefix: u8, i: int) -> Seq<u8> {
    index_key(prefix, i as u64)
}

/// The keys of the slots from `low` up to, not including, `high`.
pub open spec fn slot_keys(prefix: u8, low: int, high: int) -> Set<Seq<u8>> {
    Set::new(|key: Seq<u8>| exists|i: int| low <= i < high && key == #[trigger] slot_key(prefix, i))
}

/// What a list is: the contents of its store, its prefix, and its counter.
pub struct Stored {
    pub contents: Contents,
    pub prefix: u8,
    pub len: nat,
}

impl Stored {
    /// The key of slot `i`.
    pub open spec fn slot_key(self, i: int) -> Seq<u8> {
        slot_key(self.prefix, i)
    }

    /// What the store holds for slot `i`.
    pub open spec fn slot(self, i: int) -> Option<Seq<u8>> {
        lookup(self.contents, self.slot_key(i))
    }

    /// What reading at `index` gives: nothing at or after the counter.
    pub open spec fn get(self, index: int) -> Option<Seq<u8>> {
        if 0 <= index < self.len {
            self.slot(index)
        } else {
            None
        }
    }

    /// The counter after one more slot was claimed. It wraps around.
    pub open spec fn next_len(self) -> nat {
        if self.len >= usize::MAX {
            0
        } else {
            self.len + 1
        }
    }

    /// The list after a slot was claimed and nothing written to it.
    pub open spec fn claimed(self) -> Stored {
        Stored { len: self.next_len(), ..self }
    }

    /// The list after `value` was pushed.
    pub open spec fn pushed(self, value: Seq<u8>) -> Stored {
        Stored {
            contents: self.contents.insert(self.slot_key(self.len as int), value),
            prefix: self.prefix,
            len: self.next_len(),
        }
    }

    /// The list after its last slot was given up and nothing removed.
    pub open spec fn released(self) -> Stored {
        if self.len == 0 {
            self
        } else {
            Stored { len: (self.len - 1) as nat, ..self }
        }
    }

    /// The list after a pop.
    pub open spec fn popped(self) -> Stored {
        if self.len == 0 {
            self
        } else {
            Stored {
                contents: self.contents.remove(self.slot_key(self.len - 1)),
                prefix: self.prefix,
                len: (self.len - 1) as nat,
            }
        }
    }

    /// What a pop returns.
    pub open spec fn last(self) -> Option<Seq<u8>> {
        if self.len == 0 {
            None
        } else {
            self.slot(self.len - 1)
        }
    }

    /// The list after every slot below the counter was popped.
    pub open spec fn cleared(self) -> Stored {
        Stored {
            contents: self.contents.remove_keys(slot_keys(self.prefix, 0, self.len as int)),
            prefix: self.prefix,
            len: 0,
        }
    }

    /// The list after each of `values` was pushed, the first of them first.
    pub open spec fn extended(self, values: Seq<Seq<u8>>) -> Stored
        decreases values.len(),
    {
        if values.len() == 0 {
            self
        } else {
            self.extended(values.drop_last()).pushed(values.last())
        }
    }

}

/// What each of `items` holds.
pub open spec fn views(items: Seq<std::vec::Vec<u8>>) -> Seq<Seq<u8>> {
    Seq::new(items.len(), |i: int| items[i]@)
}

/// The counter that the store gives back for the prefix: one more than the
/// index of the last slot that the store holds below [`Prefixed::max`], and
/// 0 where it holds none.
pub open spec fn recovered_len(contents: Contents, prefix: u8) -> nat {
    match entry_below(contents, index_key(prefix, usize::MAX as u64)) {
        Some((key, _)) => if has_prefix(key, prefix) && key.len() >= 9 {
            (slot_index(key) + 1) as nat
        } else {
            0
        },
        None => 0,
    }
}

/// Mimics the API of `Vec` on a store.
#[derive(Debug)]
pub struct Vec<DS: ByteStore> {
    ds: DS,
    prefix: u8,
    len: usize,
}

impl<DS: ByteStore> View for Vec<DS> {
    type V = Stored;

    closed spec fn view(&self) -> Stored {
        Stored { contents: self.ds.contents(), prefix: self.prefix, len: self.len as nat }
    }
}

impl<DS: ByteStore> Vec<DS> {
    /// A list on `ds` under `prefix`, with `len` slots.
    pub fn new(ds: DS, prefix: u8, len: usize) -> (list: Self)
        ensures
            list@ == (Stored { contents: ds.contents(), prefix, len: len as nat }),
    {
        Vec { ds, prefix, len }
    }

    /// Gives the store back.
    pub fn into_store(self) -> (ds: DS)
        ensures
            ds.contents() == self@.contents,
    {
        self.ds
    }

    /// The number of elements in the list.
    pub fn len(&self) -> (len: usize)
        ensures
            len == self@.len,
    {
        self.len
    }

    /// Whether the list has no element.
    pub fn is_empty(&self) -> (empty: bool)
        ensures
            empty <==> self@.len == 0,
    {
        self.len == 0
    }

    /// The element at `index`, if there is one. Nothing is read at or after
    /// the counter.
    pub fn get(&self, index: usize) -> (found: Result<
        Option<std::vec::Vec<u8>>,
        Error<DS::DbError>,
    >)
        ensures
            index >= self@.len ==> found matches Ok(None),
            match found {
                Ok(val) => opt_bytes(val) == self@.get(index as int),
                Err(Error::SerializingKey(_)) => true,
                Err(Error::Database(_)) => true,
                Err(_) => false,
            },
    {
        if index >= self.len {
            return Ok(None);
        }
        let key = Prefixed { prefix: self.prefix, index };
        data_store::get(&self.ds, key.encode())
    }

    /// Appends an element to the back of the list.
    ///
    /// The counter is advanced first, and stays advanced where the write
    /// fails: the slot is then a gap.
    pub fn push(&mut self, value: &[u8]) -> (pushed: Result<(), Error<DS::DbError>>)
        ensures
            match pushed {
                Ok(()) => final(self)@ == old(self)@.pushed(value@),
                Err(Error::SerializingKey(_)) => final(self)@ == old(self)@.claimed(),
                Err(Error::Database(_)) => {
                    &&& final(self)@.prefix == old(self)@.prefix
                    &&& final(self)@.len == old(self)@.next_len()
                },
                Err(_) => false,
            },
    {
        let prev_len = self.len;
        self.len = if prev_len == usize::MAX {
            0
        } else {
            prev_len + 1
        };
        let key = Prefixed { prefix: self.prefix, index: prev_len };
        match data_store::insert(&mut self.ds, key.encode(), value) {
            Ok(_) => Ok(()),
            Err(e) => Err(e),
        }
    }

    /// Removes the last element from the list and returns it, or `None` if
    /// the list is empty, in which case the store is not touched.
    ///
    /// The counter is lowered first, and stays lowered where the removal
    /// fails.
    pub fn pop(&mut self) -> (popped: Result<Option<std::vec::Vec<u8>>, Error<DS::DbError>>)
        ensures
            old(self)@.len == 0 ==> popped matches Ok(None),
            match popped {
                Ok(val) => {
                    &&& opt_bytes(val) == old(self)@.last()
                    &&& final(self)@ == old(self)@.popped()
                },
                Err(Error::SerializingKey(_)) => final(self)@ == old(self)@.released(),
                Err(Error::Database(_)) => {
                    &&& final(self)@.prefix == old(self)@.prefix
                    &&& final(self)@.len == old(self)@.released().len
                },
                Err(_) => false,
            },
    {
        let old_len = self.len;
        if old_len == 0 {
            return Ok(None);
        }
        self.len = old_len - 1;
        let key = Prefixed { prefix: self.prefix, index: old_len - 1 };
        data_store::remove(&mut self.ds, key.encode())
    }

    /// Clears the list: pops until it is empty. An empty list is left as it
    /// is, and its store is not touched.
    pub fn clear(&mut self) -> (cleared: Result<(), Error<DS::DbError>>)
        ensures
            old(self)@.len == 0 ==> cleared is Ok,
            match cleared {
                Ok(()) => final(self)@ == old(self)@.cleared(),
                Err(Error::SerializingKey(_)) | Err(Error::Database(_)) => {
                    &&& final(self)@.prefix == old(self)@.prefix
                    &&& final(self)@.len < old(self)@.len
                },
                Err(_) => false,
            },
    {
        while self.len > 0
            invariant
                self@.prefix == old(self)@.prefix,
                self@.len <= old(self)@.len,
                self@.contents == old(self)@.contents.remove_keys(
                    slot_keys(self@.prefix, self@.len as int, old(self)@.len as int),
                ),
            decreases self.len,
        {
            let ghost before = self@;
            match self.pop() {
                Ok(_) => {},
                Err(e) => {
                    return Err(e);
                },
            }
            proof {
                let high = old(self)@.len as int;
                let low = before.len as int;
                assert(slot_keys(before.prefix, low - 1, high) =~= slot_keys(
                    before.prefix,
                    low,
                    high,
                ).insert(slot_key(before.prefix, low - 1)));
                assert(self@.contents =~= old(self)@.contents.remove_keys(
                    slot_keys(before.prefix, low - 1, high),
                ));
            }
        }
        Ok(())
    }

}

impl<DS: Ordered> Vec<DS> {
    /// The list that `ds` holds under `prefix`: its counter is recovered from
    /// the last slot in the store.
    pub fn open(ds: DS, prefix: u8) -> (opened: Result<Self, Error<DS::DbError>>)
        ensures
            match opened {
                Ok(list) => list@ == (Stored {
                    contents: ds.contents(),
                    prefix,
                    len: recovered_len(ds.contents(), prefix),
                }),
                Err(Error::SerializingKey(_)) | Err(Error::Database(_)) => true,
                Err(Error::DeSerializingKey(_)) => entry_below(
                    ds.contents(),
                    index_key(prefix, usize::MAX as u64),
                ) matches Some((key, _)) && has_prefix(key, prefix),
                Err(_) => false,
            },
    {
        let bound = Prefixed::max(prefix);
        let top = match data_store::get_lt(&ds, bound.encode()) {
            Ok(top) => top,
            Err(e) => {
                return Err(e);
            },
        };
        let len: usize = match top {
            None => 0,
            Some((key, _val)) => {
                if key.len() == 0 || key[0] != prefix {
                    0
                } else {
                    match Prefixed::decode(key.as_slice()) {
                        Err(e) => {
                            return Err(Error::DeSerializingKey(e));
                        },
                        Ok(last) => {
                            proof {
                                lemma_slot_index(key@, last.prefix, last.index as u64);
                                if last.index == usize::MAX {
                                    lemma_not_before_beginning(key@, 9);
                                }
                            }
                            last.index + 1
                        },
                    }
                }
            },
        };
        Ok(Vec { ds, prefix, len })
    }
}

} // verus!
