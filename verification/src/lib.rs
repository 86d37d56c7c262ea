//! Typed collections stored in an ordered, byte-oriented key-value store.
//!
//! Every collection owns a one-byte prefix of the key space, so that any
//! number of collections can share one store. Keys are encoded so that the
//! byte order of the store is the numeric order of the indices. Values are
//! the bytes that the value codec made of them.

use vstd::prelude::*;

pub mod db;
pub mod errors;
pub mod key;
pub mod model;
pub mod order;
pub mod stores;
pub mod traits;
pub mod wrapper;

pub use db::Db;
pub use traits::ByteStore;

verus! {

/// What can go wrong while the database works or a key or value changes
/// form.
#[derive(Debug)]
pub enum Error<DbError> {
    /// A value could not be decoded.
    DeSerializingVal(bincode::error::DecodeError),
    /// A key could not be decoded.
    DeSerializingKey(bincode::error::DecodeError),
    /// A value could not be encoded.
    SerializingValue(bincode::error::EncodeError),
    /// A key could not be encoded.
    SerializingKey(bincode::error::EncodeError),
    /// The database reported an error.
    Database(DbError),
}

} // verus!
