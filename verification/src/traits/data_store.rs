//! Operations on a store by encoded key.
//!
//! Each takes the key as the key codec returned it. Where the codec failed
//! the operation fails with that error and the store is not touched; where
//! the store fails its error is handed on.

use vstd::prelude::*;
use bincode::error::EncodeError;
use vstd::slice::slice_to_vec;
use crate::traits::byte_store::{
    applied, entry_above, entry_below, entry_views, is_range, lookup, opt_bytes, opt_entry,
    opt_slice, swapped, written, Atomic, Bound, ByteStore, Contents, Ordered, Ranged,
};
use crate::Error;

verus! {

/// Reads the value under the key.
pub fn get<S: ByteStore>(store: &S, key: Result<Vec<u8>, EncodeError>) -> (found: Result<
    Option<Vec<u8>>,
    Error<S::DbError>,
>)
    ensures
        match found {
            Ok(val) => key matches Ok(bytes) && opt_bytes(val) == lookup(
                store.contents(),
                bytes@,
            ),
            Err(Error::SerializingKey(e)) => key == Err::<Vec<u8>, EncodeError>(e),
            Err(Error::Database(_)) => key is Ok,
            Err(_) => false,
        },
{
    match key {
        Err(e) => Err(Error::SerializingKey(e)),
        Ok(bytes) => match store.get(bytes.as_slice()) {
            Ok(val) => Ok(val),
            Err(e) => Err(Error::Database(e)),
        },
    }
}

/// Removes the key and returns the value that was under it.
pub fn remove<S: ByteStore>(store: &mut S, key: Result<Vec<u8>, EncodeError>) -> (removed: Result<
    Option<Vec<u8>>,
    Error<S::DbError>,
>)
    ensures
        match removed {
            Ok(val) => key matches Ok(bytes) && opt_bytes(val) == lookup(
                old(store).contents(),
                bytes@,
            ) && final(store).contents() == old(store).contents().remove(bytes@),
            Err(Error::SerializingKey(e)) => {
                &&& key == Err::<Vec<u8>, EncodeError>(e)
                &&& final(store).contents() == old(store).contents()
            },
            Err(Error::Database(_)) => key is Ok,
            Err(_) => false,
        },
{
    match key {
        Err(e) => Err(Error::SerializingKey(e)),
        Ok(bytes) => match store.remove(bytes.as_slice()) {
            Ok(val) => Ok(val),
            Err(e) => Err(Error::Database(e)),
        },
    }
}

/// Puts `val` under the key and returns the value that was there before.
pub fn insert<S: ByteStore>(
    store: &mut S,
    key: Result<Vec<u8>, EncodeError>,
    val: &[u8],
) -> (previous: Result<Option<Vec<u8>>, Error<S::DbError>>)
    ensures
        match previous {
            Ok(prev) => key matches Ok(bytes) && opt_bytes(prev) == lookup(
                old(store).contents(),
                bytes@,
            ) && final(store).contents() == old(store).contents().insert(bytes@, val@),
            Err(Error::SerializingKey(e)) => {
                &&& key == Err::<Vec<u8>, EncodeError>(e)
                &&& final(store).contents() == old(store).contents()
            },
            Err(Error::Database(_)) => key is Ok,
            Err(_) => false,
        },
{
    match key {
        Err(e) => Err(Error::SerializingKey(e)),
        Ok(bytes) => match store.insert(bytes.as_slice(), val) {
            Ok(prev) => Ok(prev),
            Err(e) => Err(Error::Database(e)),
        },
    }
}

/// The entry with the greatest key strictly before the key.
pub fn get_lt<S: Ordered>(store: &S, key: Result<Vec<u8>, EncodeError>) -> (found: Result<
    Option<(Vec<u8>, Vec<u8>)>,
    Error<S::DbError>,
>)
    ensures
        match found {
            Ok(entry) => key matches Ok(bytes) && opt_entry(entry) == entry_below(
                store.contents(),
                bytes@,
            ),
            Err(Error::SerializingKey(e)) => key == Err::<Vec<u8>, EncodeError>(e),
            Err(Error::Database(_)) => key is Ok,
            Err(_) => false,
        },
{
    match key {
        Err(e) => Err(Error::SerializingKey(e)),
        Ok(bytes) => match store.get_lt(bytes.as_slice()) {
            Ok(entry) => Ok(entry),
            Err(e) => Err(Error::Database(e)),
        },
    }
}

/// The entry with the least key strictly after the key.
pub fn get_gt<S: Ordered>(store: &S, key: Result<Vec<u8>, EncodeError>) -> (found: Result<
    Option<(Vec<u8>, Vec<u8>)>,
    Error<S::DbError>,
>)
    ensures
        match found {
            Ok(entry) => key matches Ok(bytes) && opt_entry(entry) == entry_above(
                store.contents(),
                bytes@,
            ),
            Err(Error::SerializingKey(e)) => key == Err::<Vec<u8>, EncodeError>(e),
            Err(Error::Database(_)) => key is Ok,
            Err(_) => false,
        },
{
    match key {
        Err(e) => Err(Error::SerializingKey(e)),
        Ok(bytes) => match store.get_gt(bytes.as_slice()) {
            Ok(entry) => Ok(entry),
            Err(e) => Err(Error::Database(e)),
        },
    }
}

/// `op`, given `given`, may answer with `answer`.
pub open spec fn answered<E, F: Fn(&[u8]) -> Result<Vec<u8>, Error<E>>>(
    op: &F,
    given: &[u8],
    answer: Result<Vec<u8>, Error<E>>,
) -> bool {
    call_ensures(op, (given,), answer)
}

/// `op` made `new` of the value `current`.
pub open spec fn made<E, F: Fn(&[u8]) -> Result<Vec<u8>, Error<E>>>(
    op: &F,
    current: Seq<u8>,
    new: Seq<u8>,
) -> bool {
    exists|given: &[u8], answer: Vec<u8>|
        given@ == current && answer@ == new && #[trigger] answered(
            op,
            given,
            Ok::<Vec<u8>, Error<E>>(answer),
        )
}

/// `op` refused the value `current` with `error`.
pub open spec fn refused<E, F: Fn(&[u8]) -> Result<Vec<u8>, Error<E>>>(
    op: &F,
    current: Seq<u8>,
    error: Error<E>,
) -> bool {
    exists|given: &[u8]|
        given@ == current && #[trigger] answered(op, given, Err::<Vec<u8>, Error<E>>(error))
}

/// `after` is `before` with the value under `key` made anew by `op`; where
/// `before` has no such key, `after` is `before`.
pub open spec fn remade<E, F: Fn(&[u8]) -> Result<Vec<u8>, Error<E>>>(
    op: &F,
    before: Contents,
    key: Seq<u8>,
    after: Contents,
) -> bool {
    if before.contains_key(key) {
        exists|new: Seq<u8>| #[trigger]
            made(op, before[key], new) && after == before.insert(key, new)
    } else {
        after == before
    }
}

/// Replaces the value under the key by what `op` makes of it, in one step
/// of the store. A key that is absent stays absent, and `op` is not asked.
/// Where `op` fails, the value stays as it is and the error of `op` is
/// returned.
pub fn atomic_update<S: Atomic, F: Fn(&[u8]) -> Result<Vec<u8>, Error<S::DbError>>>(
    store: &mut S,
    key: Result<Vec<u8>, EncodeError>,
    op: F,
) -> (updated: Result<(), Error<S::DbError>>)
    requires
        forall|current: &[u8]| op.requires((current,)),
    ensures
        match updated {
            Ok(()) => key is Ok && remade(
                &op,
                old(store).contents(),
                key->Ok_0@,
                final(store).contents(),
            ),
            Err(e) => match key {
                Err(cause) => {
                    &&& e == Error::<S::DbError>::SerializingKey(cause)
                    &&& final(store).contents() == old(store).contents()
                },
                Ok(bytes) => e is Database || {
                    &&& old(store).contents().contains_key(bytes@)
                    &&& refused(&op, old(store).contents()[bytes@], e)
                    &&& final(store).contents() == old(store).contents()
                },
            },
        },
{
    let bytes = match key {
        Err(e) => {
            return Err(Error::SerializingKey(e));
        },
        Ok(bytes) => bytes,
    };
    let op_ref = &op;
    let bytes_op = |current: Option<&[u8]>| -> (out: (
        Option<Vec<u8>>,
        Result<(), Error<S::DbError>>,
    ))
        ensures
            match current {
                None => out.0 is None && out.1 is Ok,
                Some(old) => match out.1 {
                    Ok(()) => out.0 matches Some(new) && made(op_ref, old@, new@),
                    Err(e) => out.0 matches Some(kept) && kept@ == old@ && refused(op_ref, old@, e),
                },
            },
        {
            match current {
                None => (None, Ok(())),
                Some(old) => {
                    let answer = op_ref(old);
                    let kept = slice_to_vec(old);
                    match answer {
                        Ok(new) => {
                            proof {
                                assert(answered(op_ref, old, Ok::<Vec<u8>, Error<S::DbError>>(new)));
                            }
                            (Some(new), Ok(()))
                        },
                        Err(e) => {
                            proof {
                                assert(answered(op_ref, old, Err::<Vec<u8>, Error<S::DbError>>(e)));
                            }
                            (Some(kept), Err(e))
                        },
                    }
                },
            }
        };
    match store.atomic_update(bytes.as_slice(), bytes_op) {
        Err(e) => Err(Error::Database(e)),
        Ok(report) => {
            proof {
                let before = old(store).contents();
                let (current, new) = choose|current: Option<&[u8]>, new: Option<Vec<u8>>| #[trigger]
                    applied(bytes_op, current, new, report) && opt_slice(current) == lookup(
                        before,
                        bytes@,
                    ) && store.contents() == written(before, bytes@, opt_bytes(new));
                match current {
                    None => {
                        assert(before.remove(bytes@) =~= before);
                    },
                    Some(old) => {
                    },
                }
            }
            report
        },
    }
}

/// Puts `new` under the key if the value there is `expected`, in one step
/// of the store, and does nothing otherwise.
pub fn conditional_update<S: Atomic>(
    store: &mut S,
    key: Result<Vec<u8>, EncodeError>,
    new: &[u8],
    expected: &[u8],
) -> (updated: Result<(), Error<S::DbError>>)
    ensures
        match updated {
            Ok(()) => key matches Ok(bytes) && final(store).contents() == swapped(
                old(store).contents(),
                bytes@,
                new@,
                expected@,
            ),
            Err(Error::SerializingKey(e)) => {
                &&& key == Err::<Vec<u8>, EncodeError>(e)
                &&& final(store).contents() == old(store).contents()
            },
            Err(Error::Database(_)) => key is Ok,
            Err(_) => false,
        },
{
    match key {
        Err(e) => Err(Error::SerializingKey(e)),
        Ok(bytes) => match store.conditional_update(bytes.as_slice(), new, expected) {
            Ok(()) => Ok(()),
            Err(e) => Err(Error::Database(e)),
        },
    }
}

/// The key at an end of a range, as the key codec returned it.
pub type EncodedBound = Bound<Result<Vec<u8>, EncodeError>>;

/// The bytes at an end of a range whose key was encoded.
pub open spec fn encoded_view(bound: EncodedBound) -> Bound<Seq<u8>> {
    match bound {
        Bound::Included(Ok(key)) => Bound::Included(key@),
        Bound::Excluded(Ok(key)) => Bound::Excluded(key@),
        _ => Bound::Unbounded,
    }
}

/// The codec failed on the key at this end of a range.
pub open spec fn bound_failed(bound: EncodedBound) -> bool {
    match bound {
        Bound::Included(Err(_)) | Bound::Excluded(Err(_)) => true,
        _ => false,
    }
}

/// The entries with a key in the range from `start` to `end`, in the order
/// of their keys. Where the codec failed on an end of the range, the error
/// of the start, or else of the end, is returned and the store is not
/// asked.
pub fn range<S: Ranged>(store: &S, start: EncodedBound, end: EncodedBound) -> (found: Result<
    Vec<(Vec<u8>, Vec<u8>)>,
    Error<S::DbError>,
>)
    ensures
        match found {
            Ok(entries) => {
                &&& !bound_failed(start)
                &&& !bound_failed(end)
                &&& is_range(
                    store.contents(),
                    encoded_view(start),
                    encoded_view(end),
                    entry_views(entries@),
                )
            },
            Err(Error::SerializingKey(e)) => match start {
                Bound::Included(Err(cause)) | Bound::Excluded(Err(cause)) => e == cause,
                _ => match end {
                    Bound::Included(Err(cause)) | Bound::Excluded(Err(cause)) => e == cause,
                    _ => false,
                },
            },
            Err(Error::Database(_)) => !bound_failed(start) && !bound_failed(end),
            Err(_) => false,
        },
{
    let low: Bound<Vec<u8>> = match start {
        Bound::Included(Ok(key)) => Bound::Included(key),
        Bound::Excluded(Ok(key)) => Bound::Excluded(key),
        Bound::Included(Err(e)) | Bound::Excluded(Err(e)) => {
            return Err(Error::SerializingKey(e));
        },
        Bound::Unbounded => Bound::Unbounded,
    };
    let high: Bound<Vec<u8>> = match end {
        Bound::Included(Ok(key)) => Bound::Included(key),
        Bound::Excluded(Ok(key)) => Bound::Excluded(key),
        Bound::Included(Err(e)) | Bound::Excluded(Err(e)) => {
            return Err(Error::SerializingKey(e));
        },
        Bound::Unbounded => Bound::Unbounded,
    };
    let from: Bound<&[u8]> = match &low {
        Bound::Included(key) => Bound::Included(key.as_slice()),
        Bound::Excluded(key) => Bound::Excluded(key.as_slice()),
        Bound::Unbounded => Bound::Unbounded,
    };
    let to: Bound<&[u8]> = match &high {
        Bound::Included(key) => Bound::Included(key.as_slice()),
        Bound::Excluded(key) => Bound::Excluded(key.as_slice()),
        Bound::Unbounded => Bound::Unbounded,
    };
    match store.range(from, to) {
        Ok(entries) => Ok(entries),
        Err(e) => Err(Error::Database(e)),
    }
}

} // verus!
