//! A deque in a store: two cursors bound the slots in use. They start in
//! the middle of the index space, so that the deque can grow at either end
//! without moving an element.

use vstd::prelude::*;
use bincode::error::{DecodeError, EncodeError};
use crate::key::{
    decode_index_key, encode_index_key, has_prefix, index_key, lemma_not_before_beginning,
    lemma_slot_index, slot_index,
};
use crate::traits::byte_store::{
    entry_above, entry_below, lookup, opt_bytes, ByteStore, Contents, Ordered,
};
use crate::traits::data_store;
use crate::Error;

pub mod extend;
pub mod history;
pub mod iterator;

pub use iterator::Iter;

verus! {

/// Where the head cursor of an empty deque starts.
pub const HEAD_START: u64 = u64::MAX / 2 - 1;

/// Where the tail cursor of an empty deque starts.
pub const TAIL_START: u64 = u64::MAX / 2;

/// The key of one slot of a deque.
#[derive(Clone, Copy, Debug, PartialEq, Eq, Structural, Hash)]
pub struct Prefixed {
    pub prefix: u8,
    pub index: u64,
}

impl Prefixed {
    /// The bytes of the key.
    pub open spec fn bytes(&self) -> Seq<u8> {
        index_key(self.prefix, self.index)
    }

    /// The index of the slot.
    pub fn index(&self) -> (index: u64)
        ensures
            index == self.index,
    {
        self.index
    }

    /// The key before every slot that a deque with this prefix uses.
    pub fn min(prefix: u8) -> (key: Self)
        ensures
            key == (Prefixed { prefix, index: 0 }),
    {
        Prefixed { prefix, index: 0 }
    }

    /// The key after every slot that a deque with this prefix uses.
    pub fn max(prefix: u8) -> (key: Self)
        ensures
            key == (Prefixed { prefix, index: u64::MAX }),
    {
        Prefixed { prefix, index: u64::MAX }
    }

    /// The key as the store holds it.
    pub fn encode(&self) -> (encoded: Result<Vec<u8>, EncodeError>)
        ensures
            encoded matches Ok(bytes) ==> bytes@ == self.bytes(),
    {
        encode_index_key(self.prefix, self.index)
    }

    /// The key that starts `bytes`.
    pub fn decode(bytes: &[u8]) -> (decoded: Result<Prefixed, DecodeError>)
        ensures
            decoded matches Ok(key) ==> bytes@.len() >= 9 && bytes@.subrange(0, 9) == key.bytes(),
    {
        Prefixed::from_decoded(decode_index_key(bytes))
    }

    /// The key that the key codec decoded, from what the codec returned: the
    /// prefix and the index that it read make the key, and an error of the
    /// codec is handed on as it is.
    pub fn from_decoded(decoded: Result<(u8, u64), DecodeError>) -> (key: Result<
        Prefixed,
        DecodeError,
    >)
        ensures
            match decoded {
                Ok((prefix, index)) => key matches Ok(found) && found == (Prefixed {
                    prefix,
                    index,
                }),
                Err(e) => key == Err::<Prefixed, DecodeError>(e),
            },
    {
        match decoded {
            Ok((prefix, index)) => Ok(Prefixed { prefix, index }),
            Err(e) => Err(e),
        }
    }
}

/// The key of the slot with the index `i` of the deque with the prefix
/// `prefix`.
pub open spec fn slot_key(prefix: u8, i: int) -> Seq<u8> {
    index_key(prefix, i as u64)
}

/// The keys of the slots with an index after `low` and before `high`.
pub open spec fn slot_keys(prefix: u8, low: int, high: int) -> Set<Seq<u8>> {
    Set::new(|key: Seq<u8>| exists|i: int| low < i < high && key == #[trigger] slot_key(prefix, i))
}

/// The tail cursor that the store gives back for the prefix: one after the
/// index of the last slot that the store holds below [`Prefixed::max`], and
/// the middle of the index space where it holds none.
pub open spec fn recovered_tail(contents: Contents, prefix: u8) -> int {
    match entry_below(contents, index_key(prefix, u64::MAX)) {
        Some((key, _)) => if has_prefix(key, prefix) && key.len() >= 9 {
            slot_index(key) + 1
        } else {
            TAIL_START as int
        },
        None => TAIL_START as int,
    }
}

/// The head cursor that the store gives back for the prefix: one before the
/// index of the first slot that the store holds above [`Prefixed::min`], and
/// just before the middle of the index space where it holds none. A slot
/// with the index 0 has no index before it: the head is then the greatest
/// index, which is before no tail.
pub open spec fn recovered_head(contents: Contents, prefix: u8) -> int {
    match entry_above(contents, index_key(prefix, 0)) {
        Some((key, _)) => if has_prefix(key, prefix) && key.len() >= 9 {
            if slot_index(key) == 0 {
                u64::MAX as int
            } else {
                slot_index(key) - 1
            }
        } else {
            HEAD_START as int
        },
        None => HEAD_START as int,
    }
}

/// What a deque is: the contents of its store, its prefix, and its two
/// cursors. `head` is the free slot before the first element, `tail` the
/// free slot after the last.
pub struct Stored {
    pub contents: Contents,
    pub prefix: u8,
    pub head: int,
    pub tail: int,
}

impl Stored {
    /// The cursors bound a window of slots: `head` is before `tail`, and
    /// both are indices.
    pub open spec fn wf(self) -> bool {
        0 <= self.head < self.tail <= u64::MAX
    }

    /// The number of elements.
    pub open spec fn len(self) -> int {
        self.tail - self.head - 1
    }

    /// The key of the slot with the index `i`.
    pub open spec fn slot_key(self, i: int) -> Seq<u8> {
        slot_key(self.prefix, i)
    }

    /// What the store holds for the slot with the index `i`.
    pub open spec fn slot(self, i: int) -> Option<Seq<u8>> {
        lookup(self.contents, self.slot_key(i))
    }

    /// What reading element `index` gives: nothing outside the window.
    pub open spec fn get(self, index: int) -> Option<Seq<u8>> {
        if 0 <= index < self.len() {
            self.slot(self.head + 1 + index)
        } else {
            None
        }
    }

    /// The deque after `value` was pushed at the back.
    pub open spec fn pushed_back(self, value: Seq<u8>) -> Stored {
        Stored {
            contents: self.contents.insert(self.slot_key(self.tail), value),
            tail: self.tail + 1,
            ..self
        }
    }

    /// The deque after `value` was pushed at the front.
    pub open spec fn pushed_front(self, value: Seq<u8>) -> Stored {
        Stored {
            contents: self.contents.insert(self.slot_key(self.head), value),
            head: self.head - 1,
            ..self
        }
    }

    /// What a pop at the back returns.
    pub open spec fn back(self) -> Option<Seq<u8>> {
        if self.len() <= 0 {
            None
        } else {
            self.slot(self.tail - 1)
        }
    }

    /// What a pop at the front returns.
    pub open spec fn front(self) -> Option<Seq<u8>> {
        if self.len() <= 0 {
            None
        } else {
            self.slot(self.head + 1)
        }
    }

    /// The deque after a pop at the back. An empty deque stays as it is.
    pub open spec fn popped_back(self) -> Stored {
        if self.len() <= 0 {
            self
        } else {
            Stored {
                contents: self.contents.remove(self.slot_key(self.tail - 1)),
                tail: self.tail - 1,
                ..self
            }
        }
    }

    /// The deque after a pop at the front. An empty deque stays as it is.
    pub open spec fn popped_front(self) -> Stored {
        if self.len() <= 0 {
            self
        } else {
            Stored {
                contents: self.contents.remove(self.slot_key(self.head + 1)),
                head: self.head + 1,
                ..self
            }
        }
    }

    /// The deque after every element was popped at the back.
    pub open spec fn cleared(self) -> Stored {
        Stored {
            contents: self.contents.remove_keys(slot_keys(self.prefix, self.head, self.tail)),
            tail: self.head + 1,
            ..self
        }
    }

    /// The deque after each of `values` was pushed at the back, the first of
    /// them first.
    pub open spec fn extended(self, values: Seq<Seq<u8>>) -> Stored
        decreases values.len(),
    {
        if values.len() == 0 {
            self
        } else {
            self.extended(values.drop_last()).pushed_back(values.last())
        }
    }
}

/// The two cursors of a deque, the head before the tail.
#[derive(Debug)]
struct Window {
    head: u64,
    tail: u64,
}

impl Window {
    #[verifier::type_invariant]
    spec fn inv(self) -> bool {
        self.head < self.tail
    }
}

/// Mimics the API of `VecDeque` on a store.
#[derive(Debug)]
pub struct VecDeque<DS: ByteStore> {
    ds: DS,
    prefix: u8,
    window: Window,
}

impl<DS: ByteStore> View for VecDeque<DS> {
    type V = Stored;

    closed spec fn view(&self) -> Stored {
        Stored {
            contents: self.ds.contents(),
            prefix: self.prefix,
            head: self.window.head as int,
            tail: self.window.tail as int,
        }
    }
}

impl<DS: ByteStore> VecDeque<DS> {
    /// A deque on `ds` under `prefix`, with the free slots `head` before
    /// its first element and `tail` after its last.
    pub fn new(ds: DS, prefix: u8, head: u64, tail: u64) -> (deque: Self)
        requires
            head < tail,
        ensures
            deque@ == (Stored {
                contents: ds.contents(),
                prefix,
                head: head as int,
                tail: tail as int,
            }),
            deque@.wf(),
    {
        VecDeque { ds, prefix, window: Window { head, tail } }
    }

    /// Gives the store back.
    pub fn into_store(self) -> (ds: DS)
        ensures
            ds.contents() == self@.contents,
    {
        self.ds
    }

    /// The free slot before the first element.
    pub fn head(&self) -> (head: u64)
        ensures
            self@.wf(),
            head == self@.head,
    {
        proof {
            use_type_invariant(&self.window);
        }
        self.window.head
    }

    /// The free slot after the last element.
    pub fn tail(&self) -> (tail: u64)
        ensures
            self@.wf(),
            tail == self@.tail,
    {
        proof {
            use_type_invariant(&self.window);
        }
        self.window.tail
    }

    /// The number of elements in the deque, or the greatest `usize` where
    /// there are more.
    pub fn len(&self) -> (len: usize)
        ensures
            self@.wf(),
            len == if self@.len() <= usize::MAX {
                self@.len()
            } else {
                usize::MAX as int
            },
    {
        proof {
            use_type_invariant(&self.window);
        }
        let len = self.window.tail - self.window.head - 1;
        if len > usize::MAX as u64 {
            usize::MAX
        } else {
            len as usize
        }
    }

    /// Whether the deque has no element.
    pub fn is_empty(&self) -> (empty: bool)
        ensures
            self@.wf(),
            empty <==> self@.len() == 0,
    {
        proof {
            use_type_invariant(&self.window);
        }
        self.window.tail - self.window.head == 1
    }

    /// Element `index`, counted from the front, if there is one. Nothing is
    /// read outside the window of the cursors.
    pub fn get(&self, index: usize) -> (found: Result<Option<Vec<u8>>, Error<DS::DbError>>)
        ensures
            self@.wf(),
            index >= self@.len() ==> found matches Ok(None),
            match found {
                Ok(val) => opt_bytes(val) == self@.get(index as int),
                Err(Error::SerializingKey(_)) | Err(Error::Database(_)) => true,
                Err(_) => false,
            },
    {
        proof {
            use_type_invariant(&self.window);
        }
        if index as u64 >= self.window.tail - self.window.head - 1 {
            return Ok(None);
        }
        let key = Prefixed { prefix: self.prefix, index: index as u64 + self.window.head + 1 };
        data_store::get(&self.ds, key.encode())
    }

    /// Appends an element to the back of the deque.
    ///
    /// The cursor is moved first, and stays moved where the write fails: the
    /// slot is then a gap. There has to be an index left after the tail.
    pub fn push_back(&mut self, value: &[u8]) -> (pushed: Result<(), Error<DS::DbError>>)
        requires
            old(self)@.tail < u64::MAX,
        ensures
            old(self)@.wf(),
            final(self)@.wf(),
            final(self)@.prefix == old(self)@.prefix,
            final(self)@.head == old(self)@.head,
            final(self)@.tail == old(self)@.tail + 1,
            match pushed {
                Ok(()) => final(self)@ == old(self)@.pushed_back(value@),
                Err(Error::SerializingKey(_)) => final(self)@.contents == old(self)@.contents,
                Err(Error::Database(_)) => true,
                Err(_) => false,
            },
    {
        proof {
            use_type_invariant(&self.window);
        }
        let free_tail = self.window.tail;
        self.window.tail = free_tail + 1;
        let key = Prefixed { prefix: self.prefix, index: free_tail };
        match data_store::insert(&mut self.ds, key.encode(), value) {
            Ok(_) => Ok(()),
            Err(e) => Err(e),
        }
    }

    /// Prepends an element to the front of the deque.
    ///
    /// The cursor is moved first, and stays moved where the write fails: the
    /// slot is then a gap. There has to be an index left before the head.
    pub fn push_front(&mut self, value: &[u8]) -> (pushed: Result<(), Error<DS::DbError>>)
        requires
            old(self)@.head > 0,
        ensures
            old(self)@.wf(),
            final(self)@.wf(),
            final(self)@.prefix == old(self)@.prefix,
            final(self)@.head == old(self)@.head - 1,
            final(self)@.tail == old(self)@.tail,
            match pushed {
                Ok(()) => final(self)@ == old(self)@.pushed_front(value@),
                Err(Error::SerializingKey(_)) => final(self)@.contents == old(self)@.contents,
                Err(Error::Database(_)) => true,
                Err(_) => false,
            },
    {
        proof {
            use_type_invariant(&self.window);
        }
        let free_head = self.window.head;
        self.window.head = free_head - 1;
        let key = Prefixed { prefix: self.prefix, index: free_head };
        match data_store::insert(&mut self.ds, key.encode(), value) {
            Ok(_) => Ok(()),
            Err(e) => Err(e),
        }
    }

    /// Removes the last element from the deque and returns it, or `None` if
    /// the deque is empty, in which case nothing changes.
    ///
    /// The cursor is moved first, and stays moved where the removal fails.
    pub fn pop_back(&mut self) -> (popped: Result<Option<Vec<u8>>, Error<DS::DbError>>)
        ensures
            old(self)@.wf(),
            final(self)@.wf(),
            final(self)@.prefix == old(self)@.prefix,
            final(self)@.head == old(self)@.head,
            final(self)@.tail == old(self)@.popped_back().tail,
            old(self)@.len() == 0 ==> popped matches Ok(None),
            match popped {
                Ok(val) => {
                    &&& opt_bytes(val) == old(self)@.back()
                    &&& final(self)@ == old(self)@.popped_back()
                },
                Err(Error::SerializingKey(_)) => final(self)@.contents == old(self)@.contents,
                Err(Error::Database(_)) => true,
                Err(_) => false,
            },
    {
        proof {
            use_type_invariant(&self.window);
        }
        if self.window.tail - self.window.head == 1 {
            return Ok(None);
        }
        self.window.tail = self.window.tail - 1;
        let key = Prefixed { prefix: self.prefix, index: self.window.tail };
        data_store::remove(&mut self.ds, key.encode())
    }

    /// Removes the first element from the deque and returns it, or `None` if
    /// the deque is empty, in which case nothing changes.
    ///
    /// The cursor is moved first, and stays moved where the removal fails.
    pub fn pop_front(&mut self) -> (popped: Result<Option<Vec<u8>>, Error<DS::DbError>>)
        ensures
            old(self)@.wf(),
            final(self)@.wf(),
            final(self)@.prefix == old(self)@.prefix,
            final(self)@.head == old(self)@.popped_front().head,
            final(self)@.tail == old(self)@.tail,
            old(self)@.len() == 0 ==> popped matches Ok(None),
            match popped {
                Ok(val) => {
                    &&& opt_bytes(val) == old(self)@.front()
                    &&& final(self)@ == old(self)@.popped_front()
                },
                Err(Error::SerializingKey(_)) => final(self)@.contents == old(self)@.contents,
                Err(Error::Database(_)) => true,
                Err(_) => false,
            },
    {
        proof {
            use_type_invariant(&self.window);
        }
        if self.window.tail - self.window.head == 1 {
            return Ok(None);
        }
        self.window.head = self.window.head + 1;
        let key = Prefixed { prefix: self.prefix, index: self.window.head };
        data_store::remove(&mut self.ds, key.encode())
    }

    /// Clears the deque: pops at the back until it is empty. An empty deque
    /// is left as it is, and its store is not touched.
    pub fn clear(&mut self) -> (cleared: Result<(), Error<DS::DbError>>)
        ensures
            old(self)@.wf(),
            final(self)@.wf(),
            final(self)@.prefix == old(self)@.prefix,
            final(self)@.head == old(self)@.head,
            old(self)@.len() == 0 ==> cleared is Ok,
            match cleared {
                Ok(()) => final(self)@ == old(self)@.cleared(),
                Err(Error::SerializingKey(_)) | Err(Error::Database(_)) => final(self)@.tail < old(
                    self,
                )@.tail,
                Err(_) => false,
            },
    {
        proof {
            use_type_invariant(&self.window);
        }
        while self.window.tail - self.window.head > 1
            invariant
                self@.wf(),
                self@.prefix == old(self)@.prefix,
                self@.head == old(self)@.head,
                self@.tail <= old(self)@.tail,
                self@.contents == old(self)@.contents.remove_keys(
                    slot_keys(self@.prefix, self@.tail - 1, old(self)@.tail),
                ),
            decreases self.window.tail,
        {
            let ghost before = self@;
            match self.pop_back() {
                Ok(_) => {},
                Err(e) => {
                    return Err(e);
                },
            }
            proof {
                let high = old(self)@.tail;
                let gone = before.tail - 1;
                assert(slot_keys(before.prefix, gone - 1, high) =~= slot_keys(
                    before.prefix,
                    gone,
                    high,
                ).insert(slot_key(before.prefix, gone)));
                assert(self@.contents =~= old(self)@.contents.remove_keys(
                    slot_keys(before.prefix, gone - 1, high),
                ));
            }
        }
        Ok(())
    }

}

impl<DS: Ordered> VecDeque<DS> {
    /// The cursors of the deque that `ds` holds under `prefix`, head and
    /// tail, recovered from the first and the last slot in the store.
    pub fn cursors(ds: &DS, prefix: u8) -> (recovered: Result<(u64, u64), Error<DS::DbError>>)
        ensures
            match recovered {
                Ok((head, tail)) => {
                    &&& head == recovered_head(ds.contents(), prefix)
                    &&& tail == recovered_tail(ds.contents(), prefix)
                },
                Err(Error::SerializingKey(_)) | Err(Error::Database(_)) => true,
                Err(Error::DeSerializingKey(_)) => {
                    ||| entry_above(ds.contents(), index_key(prefix, 0)) matches Some((key, _))
                        && has_prefix(key, prefix)
                    ||| entry_below(ds.contents(), index_key(prefix, u64::MAX)) matches Some(
                        (key, _),
                    ) && has_prefix(key, prefix)
                },
                Err(_) => false,
            },
    {
        let low = Prefixed::min(prefix);
        let first = match data_store::get_gt(ds, low.encode()) {
            Ok(first) => first,
            Err(e) => {
                return Err(e);
            },
        };
        let head: u64 = match first {
            None => HEAD_START,
            Some((key, _val)) => {
                if key.len() == 0 || key[0] != prefix {
                    HEAD_START
                } else {
                    match Prefixed::decode(key.as_slice()) {
                        Err(e) => {
                            return Err(Error::DeSerializingKey(e));
                        },
                        Ok(found) => {
                            proof {
                                lemma_slot_index(key@, found.prefix, found.index);
                            }
                            if found.index == 0 {
                                u64::MAX
                            } else {
                                found.index - 1
                            }
                        },
                    }
                }
            },
        };
        let high = Prefixed::max(prefix);
        let last = match data_store::get_lt(ds, high.encode()) {
            Ok(last) => last,
            Err(e) => {
                return Err(e);
            },
        };
        let tail: u64 = match last {
            None => TAIL_START,
            Some((key, _val)) => {
                if key.len() == 0 || key[0] != prefix {
                    TAIL_START
                } else {
                    match Prefixed::decode(key.as_slice()) {
                        Err(e) => {
                            return Err(Error::DeSerializingKey(e));
                        },
                        Ok(found) => {
                            proof {
                                lemma_slot_index(key@, found.prefix, found.index);
                                if found.index == u64::MAX {
                                    lemma_not_before_beginning(key@, 9);
                                }
                            }
                            found.index + 1
                        },
                    }
                }
            },
        };
        Ok((head, tail))
    }
}

} // verus!
