//! A value that may be missing: its key is absent from the store then.

use vstd::prelude::*;
use crate::key::{encode_scalar_key, scalar_key};
use crate::traits::byte_store::{
    lookup, opt_bytes, opt_slice, swapped, written, Atomic, ByteStore, Contents,
};
use crate::traits::data_store::{self, refused, remade};
use crate::Error;

verus! {

/// What an optional value is: the contents of its store, and its key.
pub struct Stored {
    pub contents: Contents,
    pub key: u8,
}

impl Stored {
    /// The key of the value in the store.
    pub open spec fn full_key(self) -> Seq<u8> {
        scalar_key(self.key)
    }

    /// The value, if there is one.
    pub open spec fn value(self) -> Option<Seq<u8>> {
        lookup(self.contents, self.full_key())
    }

    /// After the value was set to `value`, or unset where `value` is `None`.
    pub open spec fn set(self, value: Option<Seq<u8>>) -> Stored {
        Stored { contents: written(self.contents, self.full_key(), value), ..self }
    }
}

/// Handles a missing value by returning `None`.
#[derive(Debug)]
pub struct OptionValue<DS: ByteStore> {
    ds: DS,
    key: u8,
}

impl<DS: ByteStore> View for OptionValue<DS> {
    type V = Stored;

    closed spec fn view(&self) -> Stored {
        Stored { contents: self.ds.contents(), key: self.key }
    }
}

impl<DS: ByteStore> OptionValue<DS> {
    /// An optional value on `ds` under `key`.
    pub fn new(ds: DS, key: u8) -> (wrapper: Self)
        ensures
            wrapper@ == (Stored { contents: ds.contents(), key }),
    {
        OptionValue { ds, key }
    }

    /// Gives the store back.
    pub fn into_store(self) -> (ds: DS)
        ensures
            ds.contents() == self@.contents,
    {
        self.ds
    }

    /// Sets the value, or unsets it where `value` is `None`.
    pub fn set(&mut self, value: Option<&[u8]>) -> (done: Result<(), Error<DS::DbError>>)
        ensures
            match done {
                Ok(()) => final(self)@ == old(self)@.set(opt_slice(value)),
                Err(Error::SerializingKey(_)) => final(self)@ == old(self)@,
                Err(Error::Database(_)) => final(self)@.key == old(self)@.key,
                Err(_) => false,
            },
    {
        let done = match value {
            Some(bytes) => data_store::insert(&mut self.ds, encode_scalar_key(self.key), bytes),
            None => data_store::remove(&mut self.ds, encode_scalar_key(self.key)),
        };
        match done {
            Ok(_) => Ok(()),
            Err(e) => Err(e),
        }
    }

    /// The value, or `None` where there is none.
    pub fn get(&self) -> (found: Result<Option<Vec<u8>>, Error<DS::DbError>>)
        ensures
            match found {
                Ok(val) => opt_bytes(val) == self@.value(),
                Err(Error::SerializingKey(_)) | Err(Error::Database(_)) => true,
                Err(_) => false,
            },
    {
        data_store::get(&self.ds, encode_scalar_key(self.key))
    }

    /// Whether there is no value.
    pub fn is_none(&self) -> (none: Result<bool, Error<DS::DbError>>)
        ensures
            match none {
                Ok(absent) => absent == self@.value().is_none(),
                Err(Error::SerializingKey(_)) | Err(Error::Database(_)) => true,
                Err(_) => false,
            },
    {
        match data_store::get(&self.ds, encode_scalar_key(self.key)) {
            Ok(val) => Ok(val.is_none()),
            Err(e) => Err(e),
        }
    }

    /// Whether there is a value.
    pub fn is_some(&self) -> (some: Result<bool, Error<DS::DbError>>)
        ensures
            match some {
                Ok(present) => present == self@.value().is_some(),
                Err(Error::SerializingKey(_)) | Err(Error::Database(_)) => true,
                Err(_) => false,
            },
    {
        match self.is_none() {
            Ok(absent) => Ok(!absent),
            Err(e) => Err(e),
        }
    }
}

impl<DS: Atomic> OptionValue<DS> {
    /// Replaces the value by what `op` makes of it, in one step of the
    /// store. A missing value stays missing, and `op` is not asked. Where
    /// `op` fails, the value stays as it is and the error of `op` is
    /// returned.
    pub fn update<F: Fn(&[u8]) -> Result<Vec<u8>, Error<DS::DbError>>>(
        &mut self,
        op: F,
    ) -> (updated: Result<(), Error<DS::DbError>>)
        requires
            forall|current: &[u8]| op.requires((current,)),
        ensures
            final(self)@.key == old(self)@.key,
            match updated {
                Ok(()) => remade(
                    &op,
                    old(self)@.contents,
                    old(self)@.full_key(),
                    final(self)@.contents,
                ),
                Err(e) => {
                    ||| e is SerializingKey && final(self)@ == old(self)@
                    ||| e is Database
                    ||| {
                        &&& old(self)@.value() is Some
                        &&& refused(&op, old(self)@.value().unwrap(), e)
                        &&& final(self)@ == old(self)@
                    }
                },
            },
    {
        data_store::atomic_update(&mut self.ds, encode_scalar_key(self.key), op)
    }

    /// Sets the value to `new` if it is `expected`, in one step of the store, and
    /// does nothing otherwise.
    pub fn conditional_update(&mut self, expected: &[u8], new: &[u8]) -> (updated: Result<
        (),
        Error<DS::DbError>,
    >)
        ensures
            match updated {
                Ok(()) => final(self)@ == (Stored {
                    contents: swapped(old(self)@.contents, old(self)@.full_key(), new@, expected@),
                    key: old(self)@.key,
                }),
                Err(Error::SerializingKey(_)) => final(self)@ == old(self)@,
                Err(Error::Database(_)) => final(self)@.key == old(self)@.key,
                Err(_) => false,
            },
    {
        data_store::conditional_update(&mut self.ds, encode_scalar_key(self.key), new, expected)
    }
}

/// A value that was set is the value that is read.
pub proof fn lemma_set_then_get(wrapper: Stored, value: Option<Seq<u8>>)
    ensures
        wrapper.set(value).value() == value,
{
}

} // verus!
