//! Extending a list by many values.

use vstd::prelude::*;
use vstd::slice::slice_subrange;
use crate::traits::byte_store::ByteStore;
use crate::traits::ExtendError;
use crate::wrapper::vec::{views, Vec};
use crate::Error;

verus! {

impl<DS: ByteStore> Vec<DS> {
    /// Extends the list with the contents of `items`, in their order. Stops
    /// at the first item that cannot be pushed and returns it with the items
    /// after it and the error; the items before it stay in the list.
    pub fn extend<'a>(&mut self, items: &'a [std::vec::Vec<u8>]) -> (extended: Result<
        (),
        ExtendError<&'a std::vec::Vec<u8>, &'a [std::vec::Vec<u8>], Error<DS::DbError>>,
    >)
        ensures
            match extended {
                Ok(()) => final(self)@ == old(self)@.extended(views(items@)),
                Err(failed) => {
                    let done = items@.len() - 1 - failed.iter@.len();
                    let reached = old(self)@.extended(views(items@).take(done));
                    &&& 0 <= done < items@.len()
                    &&& *failed.unadded == items@[done]
                    &&& failed.iter@ == items@.subrange(done + 1, items@.len() as int)
                    &&& match failed.error {
                        Error::SerializingKey(_) => final(self)@ == reached.claimed(),
                        Error::Database(_) => {
                            &&& final(self)@.prefix == reached.prefix
                            &&& final(self)@.len == reached.next_len()
                        },
                        _ => false,
                    }
                },
            },
    {
        let mut i: usize = 0;
        while i < items.len()
            invariant
                i <= items.len(),
                self@ == old(self)@.extended(views(items@).take(i as int)),
            decreases items.len() - i,
        {
            let item = &items[i];
            match self.push(item.as_slice()) {
                Ok(()) => {},
                Err(error) => {
                    let rest = slice_subrange(items, i + 1, items.len());
                    return Err(ExtendError { unadded: item, iter: rest, error });
                },
            }
            proof {
                let values = views(items@);
                assert(values.take(i + 1).drop_last() =~= values.take(i as int));
            }
            i += 1;
        }
        proof {
            assert(views(items@).take(i as int) =~= views(items@));
        }
        Ok(())
    }
}

} // verus!
