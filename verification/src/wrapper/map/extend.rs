//! Extending a map by many pairs.

use vstd::prelude::*;
use vstd::slice::slice_subrange;
use crate::traits::byte_store::ByteStore;
use crate::traits::ExtendError;
use crate::wrapper::map::{pair_views, DbMap, Stored};
use crate::Error;

verus! {

impl<DS: ByteStore> DbMap<DS> {
    /// Extends the map with the pairs of `items`, in their order. Stops at
    /// the first pair that cannot be inserted and returns it with the pairs
    /// after it and the error; the pairs before it stay in the map.
    pub fn extend<'a>(&mut self, items: &'a [(Vec<u8>, Vec<u8>)]) -> (extended: Result<
        (),
        ExtendError<&'a (Vec<u8>, Vec<u8>), &'a [(Vec<u8>, Vec<u8>)], Error<DS::DbError>>,
    >)
        ensures
            match extended {
                Ok(()) => final(self)@ == old(self)@.extended(pair_views(items@)),
                Err(failed) => {
                    let done = items@.len() - 1 - failed.iter@.len();
                    let reached = old(self)@.extended(pair_views(items@).take(done));
                    &&& 0 <= done < items@.len()
                    &&& *failed.unadded == items@[done]
                    &&& failed.iter@ == items@.subrange(done + 1, items@.len() as int)
                    &&& match failed.error {
                        Error::SerializingKey(_) => final(self)@ == reached,
                        Error::Database(_) => final(self)@.prefix == reached.prefix,
                        _ => false,
                    }
                },
            },
    {
        let mut i: usize = 0;
        while i < items.len()
            invariant
                i <= items.len(),
                self@ == old(self)@.extended(pair_views(items@).take(i as int)),
            decreases items.len() - i,
        {
            let item = &items[i];
            match self.insert(item.0.as_slice(), item.1.as_slice()) {
                Ok(_) => {},
                Err(error) => {
                    proof {
                        lemma_extended_prefix(old(self)@, pair_views(items@).take(i as int));
                    }
                    let rest = slice_subrange(items, i + 1, items.len());
                    return Err(ExtendError { unadded: item, iter: rest, error });
                },
            }
            proof {
                let pairs = pair_views(items@);
                assert(pairs.take(i + 1).drop_last() =~= pairs.take(i as int));
            }
            i += 1;
        }
        proof {
            assert(pair_views(items@).take(i as int) =~= pair_views(items@));
        }
        Ok(())
    }
}

/// Extending a map leaves its prefix as it is.
pub proof fn lemma_extended_prefix(map: Stored, items: Seq<(Seq<u8>, Seq<u8>)>)
    ensures
        map.extended(items).prefix == map.prefix,
    decreases items.len(),
{
    if items.len() > 0 {
        lemma_extended_prefix(map, items.drop_last());
    }
}

} // verus!
