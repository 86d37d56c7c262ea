//! A value that reads as a default while it is missing. The default is
//! never written: a value equal to it is kept as an absent key.

use vstd::prelude::*;
use vstd::slice::slice_to_vec;
use crate::key::{encode_scalar_key, scalar_key};
use crate::order::{compare, Side};
use crate::traits::byte_store::{
    applied, lookup, opt_bytes, opt_slice, written, Atomic, ByteStore, Contents,
};
use crate::traits::data_store::{self, answered, made, refused};
use crate::Error;

verus! {

/// What a value with a default is: the contents of its store, its key, and
/// its default.
pub struct Stored {
    pub contents: Contents,
    pub key: u8,
    pub default: Seq<u8>,
}

impl Stored {
    /// The key of the value in the store.
    pub open spec fn full_key(self) -> Seq<u8> {
        scalar_key(self.key)
    }

    /// The value: what the store holds, or the default where it holds
    /// nothing.
    pub open spec fn value(self) -> Seq<u8> {
        or_default(lookup(self.contents, self.full_key()), self.default)
    }

    /// How `value` is kept: the default as an absent key.
    pub open spec fn kept(self, value: Seq<u8>) -> Option<Seq<u8>> {
        kept_beside(value, self.default)
    }

    /// After the value was set to `value`.
    pub open spec fn set(self, value: Seq<u8>) -> Stored {
        Stored { contents: written(self.contents, self.full_key(), self.kept(value)), ..self }
    }

    /// After the value was set to `new` if it was `expected`.
    pub open spec fn swapped(self, expected: Seq<u8>, new: Seq<u8>) -> Stored {
        if self.value() == expected {
            self.set(new)
        } else {
            self
        }
    }
}

/// Handles a missing value by returning a default that was given when the
/// wrapper was made.
#[derive(Debug)]
pub struct DefaultValue<DS: ByteStore> {
    ds: DS,
    key: u8,
    default_value: Vec<u8>,
}

impl<DS: ByteStore> View for DefaultValue<DS> {
    type V = Stored;

    closed spec fn view(&self) -> Stored {
        Stored { contents: self.ds.contents(), key: self.key, default: self.default_value@ }
    }
}

impl<DS: ByteStore> DefaultValue<DS> {
    /// A value on `ds` under `key` that reads as `default_value` while it is
    /// missing.
    pub fn new(ds: DS, key: u8, default_value: Vec<u8>) -> (wrapper: Self)
        ensures
            wrapper@ == (Stored { contents: ds.contents(), key, default: default_value@ }),
    {
        DefaultValue { ds, key, default_value }
    }

    /// Gives the store back.
    pub fn into_store(self) -> (ds: DS)
        ensures
            ds.contents() == self@.contents,
    {
        self.ds
    }

    /// Sets the value. Setting it to the default removes its key.
    pub fn set(&mut self, value: &[u8]) -> (done: Result<(), Error<DS::DbError>>)
        ensures
            match done {
                Ok(()) => final(self)@ == old(self)@.set(value@),
                Err(Error::SerializingKey(_)) => final(self)@ == old(self)@,
                Err(Error::Database(_)) => {
                    &&& final(self)@.key == old(self)@.key
                    &&& final(self)@.default == old(self)@.default
                },
                Err(_) => false,
            },
    {
        let done = match compare(value, self.default_value.as_slice()) {
            Side::Same => data_store::remove(&mut self.ds, encode_scalar_key(self.key)),
            _ => data_store::insert(&mut self.ds, encode_scalar_key(self.key), value),
        };
        match done {
            Ok(_) => Ok(()),
            Err(e) => Err(e),
        }
    }

    /// The value, or the default where it is missing.
    pub fn get(&self) -> (found: Result<Vec<u8>, Error<DS::DbError>>)
        ensures
            match found {
                Ok(val) => val@ == self@.value(),
                Err(Error::SerializingKey(_)) | Err(Error::Database(_)) => true,
                Err(_) => false,
            },
    {
        match data_store::get(&self.ds, encode_scalar_key(self.key)) {
            Ok(Some(val)) => Ok(val),
            Ok(None) => Ok(slice_to_vec(self.default_value.as_slice())),
            Err(e) => Err(e),
        }
    }
}

/// The value that an optional stored value stands for.
pub open spec fn or_default(stored: Option<Seq<u8>>, default: Seq<u8>) -> Seq<u8> {
    match stored {
        Some(bytes) => bytes,
        None => default,
    }
}

/// How `value` is kept beside the default `default`: the default as nothing.
pub open spec fn kept_beside(value: Seq<u8>, default: Seq<u8>) -> Option<Seq<u8>> {
    if value == default {
        None
    } else {
        Some(value)
    }
}

/// `op` made of `value` what is kept as `out` beside the default.
pub open spec fn made_kept<E, F: Fn(&[u8]) -> Result<Vec<u8>, Error<E>>>(
    op: &F,
    value: Seq<u8>,
    default: Seq<u8>,
    out: Option<Seq<u8>>,
) -> bool {
    exists|new: Seq<u8>| #[trigger] made(op, value, new) && out == kept_beside(new, default)
}

/// `after` is `before` with its value made anew by `op`.
pub open spec fn revalued<E, F: Fn(&[u8]) -> Result<Vec<u8>, Error<E>>>(
    op: &F,
    before: Stored,
    after: Stored,
) -> bool {
    exists|new: Seq<u8>| #[trigger] made(op, before.value(), new) && after == before.set(new)
}

impl<DS: Atomic> DefaultValue<DS> {
    /// Replaces the value by what `op` makes of it, in one step of the
    /// store. A missing value is given to `op` as the default. Where `op`
    /// fails, the value stays as it is and the error of `op` is returned.
    pub fn update<F: Fn(&[u8]) -> Result<Vec<u8>, Error<DS::DbError>>>(
        &mut self,
        op: F,
    ) -> (updated: Result<(), Error<DS::DbError>>)
        requires
            forall|current: &[u8]| op.requires((current,)),
        ensures
            final(self)@.key == old(self)@.key,
            final(self)@.default == old(self)@.default,
            match updated {
                Ok(()) => revalued(&op, old(self)@, final(self)@),
                Err(e) => {
                    ||| e is SerializingKey && final(self)@ == old(self)@
                    ||| e is Database
                    ||| refused(&op, old(self)@.value(), e) && final(self)@ == old(self)@
                },
            },
    {
        let key = match encode_scalar_key(self.key) {
            Ok(key) => key,
            Err(e) => {
                return Err(Error::SerializingKey(e));
            },
        };
        let op_ref = &op;
        let default = self.default_value.as_slice();
        let ghost before = self@;
        let bytes_op = |current: Option<&[u8]>| -> (out: (
            Option<Vec<u8>>,
            Result<(), Error<DS::DbError>>,
        ))
            ensures
                match out.1 {
                    Ok(()) => made_kept(
                        op_ref,
                        or_default(opt_slice(current), default@),
                        default@,
                        opt_bytes(out.0),
                    ),
                    Err(e) => opt_bytes(out.0) == opt_slice(current) && refused(
                        op_ref,
                        or_default(opt_slice(current), default@),
                        e,
                    ),
                },
            {
                let value = match current {
                    Some(bytes) => bytes,
                    None => default,
                };
                match op_ref(value) {
                    Ok(new) => {
                        proof {
                            assert(answered(op_ref, value, Ok::<Vec<u8>, Error<DS::DbError>>(new)));
                            assert(made(op_ref, value@, new@));
                        }
                        match compare(new.as_slice(), default) {
                            Side::Same => (None, Ok(())),
                            _ => (Some(new), Ok(())),
                        }
                    },
                    Err(e) => {
                        proof {
                            assert(answered(op_ref, value, Err::<Vec<u8>, Error<DS::DbError>>(e)));
                        }
                        match current {
                            Some(bytes) => (Some(slice_to_vec(bytes)), Err(e)),
                            None => (None, Err(e)),
                        }
                    },
                }
            };
        match self.ds.atomic_update(key.as_slice(), bytes_op) {
            Err(e) => Err(Error::Database(e)),
            Ok(report) => {
                proof {
                    let full = before.full_key();
                    let (current, out) = choose|current: Option<&[u8]>, out: Option<Vec<u8>>| #[trigger]
                        applied(bytes_op, current, out, report) && opt_slice(current) == lookup(
                            before.contents,
                            full,
                        ) && self@.contents == written(before.contents, full, opt_bytes(out));
                    if report is Ok {
                        assert(made_kept(op_ref, before.value(), default@, opt_bytes(out)));
                    } else {
                        assert(written(before.contents, full, opt_slice(current))
                            =~= before.contents);
                    }
                }
                report
            },
        }
    }

    /// Sets the value to `new` if it is `expected`, in one step of the store, and
    /// does nothing otherwise. A missing value is the default: it is
    /// `expected` where `expected` is the default, and setting it to the default removes its
    /// key.
    pub fn conditional_update(&mut self, expected: &[u8], new: &[u8]) -> (updated: Result<
        (),
        Error<DS::DbError>,
    >)
        ensures
            match updated {
                Ok(()) => final(self)@ == old(self)@.swapped(expected@, new@),
                Err(Error::SerializingKey(_)) => final(self)@ == old(self)@,
                Err(Error::Database(_)) => {
                    &&& final(self)@.key == old(self)@.key
                    &&& final(self)@.default == old(self)@.default
                },
                Err(_) => false,
            },
    {
        let key = match encode_scalar_key(self.key) {
            Ok(key) => key,
            Err(e) => {
                return Err(Error::SerializingKey(e));
            },
        };
        let default = self.default_value.as_slice();
        let ghost before = self@;
        let bytes_op = |current: Option<&[u8]>| -> (out: (Option<Vec<u8>>, ()))
            ensures
                opt_bytes(out.0) == (if or_default(opt_slice(current), default@) == expected@ {
                    kept_beside(new@, default@)
                } else {
                    opt_slice(current)
                }),
            {
                let value = match current {
                    Some(bytes) => bytes,
                    None => default,
                };
                match compare(value, expected) {
                    Side::Same => match compare(new, default) {
                        Side::Same => (None, ()),
                        _ => (Some(slice_to_vec(new)), ()),
                    },
                    _ => match current {
                        Some(bytes) => (Some(slice_to_vec(bytes)), ()),
                        None => (None, ()),
                    },
                }
            };
        match self.ds.atomic_update(key.as_slice(), bytes_op) {
            Err(e) => Err(Error::Database(e)),
            Ok(report) => {
                proof {
                    let full = before.full_key();
                    let (current, out) = choose|current: Option<&[u8]>, out: Option<Vec<u8>>| #[trigger]
                        applied(bytes_op, current, out, report) && opt_slice(current) == lookup(
                            before.contents,
                            full,
                        ) && self@.contents == written(before.contents, full, opt_bytes(out));
                    assert(written(before.contents, full, opt_slice(current)) =~= before.contents);
                }
                Ok(())
            },
        }
    }
}

/// A value that was set is the value that is read, and the default is kept
/// as an absent key: after the default was set the store has no key for the
/// value, after anything else it has.
pub proof fn lemma_set_then_get(wrapper: Stored, value: Seq<u8>)
    ensures
        wrapper.set(value).value() == value,
        value == wrapper.default <==> !wrapper.set(value).contents.contains_key(wrapper.full_key()),
{
}

/// A value that was never written reads as the default.
pub proof fn lemma_missing_is_default(wrapper: Stored)
    requires
        !wrapper.contents.contains_key(wrapper.full_key()),
    ensures
        wrapper.value() == wrapper.default,
{
}

} // verus!
