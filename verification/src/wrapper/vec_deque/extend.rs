//! Extending a deque by many values.

use vstd::prelude::*;
use vstd::slice::slice_subrange;
use crate::traits::byte_store::ByteStore;
use crate::traits::ExtendError;
use crate::wrapper::vec::views;
use crate::wrapper::vec_deque::VecDeque;
use crate::Error;

verus! {

impl<DS: ByteStore> VecDeque<DS> {
    /// Extends the deque at the back with the contents of `items`, in their
    /// order. Stops at the first item that cannot be pushed and returns it
    /// with the items after it and the error; the items before it stay in
    /// the deque. There have to be as many indices left after the tail as
    /// there are items.
    pub fn extend<'a>(&mut self, items: &'a [Vec<u8>]) -> (extended: Result<
        (),
        ExtendError<&'a Vec<u8>, &'a [Vec<u8>], Error<DS::DbError>>,
    >)
        requires
            old(self)@.tail + items@.len() <= u64::MAX,
        ensures
            old(self)@.wf(),
            final(self)@.wf(),
            final(self)@.prefix == old(self)@.prefix,
            final(self)@.head == old(self)@.head,
            match extended {
                Ok(()) => final(self)@ == old(self)@.extended(views(items@)),
                Err(failed) => {
                    let done = items@.len() - 1 - failed.iter@.len();
                    let reached = old(self)@.extended(views(items@).take(done));
                    &&& 0 <= done < items@.len()
                    &&& *failed.unadded == items@[done]
                    &&& failed.iter@ == items@.subrange(done + 1, items@.len() as int)
                    &&& final(self)@.tail == reached.tail + 1
                    &&& match failed.error {
                        Error::SerializingKey(_) => final(self)@.contents == reached.contents,
                        Error::Database(_) => true,
                        _ => false,
                    }
                },
            },
    {
        proof {
            use_type_invariant(&self.window);
        }
        let mut i: usize = 0;
        while i < items.len()
            invariant
                i <= items.len(),
                old(self)@.wf(),
                self@.wf(),
                self@.prefix == old(self)@.prefix,
                self@.head == old(self)@.head,
                self@.tail == old(self)@.tail + i,
                old(self)@.tail + items@.len() <= u64::MAX,
                self@ == old(self)@.extended(views(items@).take(i as int)),
            decreases items.len() - i,
        {
            let item = &items[i];
            match self.push_back(item.as_slice()) {
                Ok(()) => {},
                Err(error) => {
                    let rest = slice_subrange(items, i + 1, items.len());
                    return Err(ExtendError { unadded: item, iter: rest, error });
                },
            }
            proof {
                let values = views(items@);
                assert(values.take(i + 1).drop_last() =~= values.take(i as int));
            }
            i += 1;
        }
        proof {
            assert(views(items@).take(i as int) =~= views(items@));
        }
        Ok(())
    }
}

} // verus!
