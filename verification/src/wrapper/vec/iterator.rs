//! Walking through a list.

use vstd::prelude::*;
use crate::traits::byte_store::ByteStore;
use crate::wrapper::vec::Vec;
use crate::Error;

verus! {

/// A cursor over a list. It holds a position only, so the list can change
/// while the cursor is in use, and the cursor sees the changes.
#[derive(Debug)]
pub struct Iter {
    pub current: usize,
}

impl Iter {
    /// The element under the cursor, and moves the cursor on; `None` at the
    /// end of the list.
    pub fn next<DS: ByteStore>(&mut self, list: &Vec<DS>) -> (item: Option<
        Result<std::vec::Vec<u8>, Error<DS::DbError>>,
    >)
        ensures
            final(self).current == if old(self).current < usize::MAX {
                old(self).current + 1
            } else {
                old(self).current as int
            },
            match item {
                None => list@.get(old(self).current as int) is None,
                Some(Ok(val)) => list@.get(old(self).current as int) == Some(val@),
                Some(Err(Error::SerializingKey(_))) | Some(Err(Error::Database(_))) => old(
                    self,
                ).current < list@.len,
                Some(Err(_)) => false,
            },
    {
        let elem = list.get(self.current);
        if self.current < usize::MAX {
            self.current += 1;
        }
        match elem {
            Ok(None) => None,
            Ok(Some(val)) => Some(Ok(val)),
            Err(e) => Some(Err(e)),
        }
    }
}

impl<DS: ByteStore> Vec<DS> {
    /// A cursor at the first element of a list.
    pub fn iter(&self) -> (cursor: Iter)
        ensures
            cursor.current == 0,
    {
        Iter { current: 0 }
    }
}

} // verus!
