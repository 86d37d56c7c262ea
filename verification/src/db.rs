//! A database: a store and the fields that live in it.

use vstd::prelude::*;
use vstd::string::StringSliceAdditionalSpecFns;
use crate::model::key::{
    field_names, increasing, lemma_increasing_distinct, DbKey, Error as KeyError, MAX_FIELDS,
};
use crate::traits::byte_store::{ByteStore, Contents, Ordered};
use crate::wrapper::default_val::DefaultValue;
use crate::wrapper::map::DbMap;
use crate::wrapper::option::OptionValue;
use crate::wrapper::vec::{recovered_len, Vec};
use crate::wrapper::vec_deque::{recovered_head, recovered_tail, VecDeque};
use crate::Error;

verus! {

/// A store together with the prefix of each field that is kept in it. The
/// wrapper of one field takes the store over, and hands it back when it is
/// done.
#[derive(Debug)]
pub struct Db<DS: ByteStore> {
    ds: DS,
    keys: DbKey,
}

impl<DS: ByteStore> Db<DS> {
    /// What the store holds.
    pub closed spec fn contents(&self) -> Contents {
        self.ds.contents()
    }

    /// The names of the fields, sorted: the prefix of a field is the place
    /// of its name.
    pub closed spec fn names(&self) -> Seq<Seq<u8>> {
        self.keys@
    }

    /// A database on `ds` with the given fields. Fails where there are more
    /// than 254 different names.
    pub fn new(ds: DS, fields: &[&str]) -> (opened: Result<Self, KeyError>)
        ensures
            match opened {
                Ok(db) => {
                    &&& db.contents() == ds.contents()
                    &&& increasing(db.names())
                    &&& db.names().to_set() == field_names(fields@).to_set()
                    &&& db.names().len() == field_names(fields@).to_set().len()
                    &&& db.names().len() <= MAX_FIELDS
                },
                Err(_) => field_names(fields@).to_set().len() > MAX_FIELDS,
            },
    {
        match DbKey::new(fields) {
            Ok(keys) => Ok(Db { ds, keys }),
            Err(e) => Err(e),
        }
    }

    /// The prefix of `field`, if the database has such a field.
    pub fn prefix(&self, field: &str) -> (prefix: Option<u8>)
        ensures
            match prefix {
                Some(at) => at < self.names().len() && self.names()[at as int]
                    == field.spec_bytes(),
                None => !self.names().contains(field.spec_bytes()),
            },
    {
        self.keys.get(field)
    }

    /// The store.
    pub fn store(&self) -> (ds: &DS)
        ensures
            ds.contents() == self.contents(),
    {
        &self.ds
    }

    /// Gives the store back.
    pub fn into_store(self) -> (ds: DS)
        ensures
            ds.contents() == self.contents(),
    {
        self.ds
    }

    /// The map kept in `field`, with the store. Where the database has no
    /// such field, the database is handed back.
    pub fn map(self, field: &str) -> (map: Result<DbMap<DS>, Self>)
        ensures
            match map {
                Ok(map) => {
                    &&& map@.contents == self.contents()
                    &&& map@.prefix < self.names().len()
                    &&& self.names()[map@.prefix as int] == field.spec_bytes()
                },
                Err(db) => db == self && !self.names().contains(field.spec_bytes()),
            },
    {
        match self.keys.get(field) {
            None => Err(self),
            Some(prefix) => Ok(DbMap::new(self.ds, prefix)),
        }
    }

    /// The optional value kept in `field`, with the store. Where the
    /// database has no such field, the database is handed back.
    pub fn option(self, field: &str) -> (value: Result<OptionValue<DS>, Self>)
        ensures
            match value {
                Ok(value) => {
                    &&& value@.contents == self.contents()
                    &&& value@.key < self.names().len()
                    &&& self.names()[value@.key as int] == field.spec_bytes()
                },
                Err(db) => db == self && !self.names().contains(field.spec_bytes()),
            },
    {
        match self.keys.get(field) {
            None => Err(self),
            Some(prefix) => Ok(OptionValue::new(self.ds, prefix)),
        }
    }

    /// The value kept in `field` that reads as `default` while it is
    /// missing, with the store. Where the database has no such field, the
    /// database is handed back.
    pub fn default_value(self, field: &str, default: std::vec::Vec<u8>) -> (value: Result<
        DefaultValue<DS>,
        Self,
    >)
        ensures
            match value {
                Ok(value) => {
                    &&& value@.contents == self.contents()
                    &&& value@.default == default@
                    &&& value@.key < self.names().len()
                    &&& self.names()[value@.key as int] == field.spec_bytes()
                },
                Err(db) => db == self && !self.names().contains(field.spec_bytes()),
            },
    {
        match self.keys.get(field) {
            None => Err(self),
            Some(prefix) => Ok(DefaultValue::new(self.ds, prefix, default)),
        }
    }
}

impl<DS: Ordered> Db<DS> {
    /// The list kept in `field`, with the store; its counter is recovered
    /// from the store. Where the database has no such field, the database
    /// is handed back.
    pub fn vec(self, field: &str) -> (list: Result<Result<Vec<DS>, Error<DS::DbError>>, Self>)
        ensures
            match list {
                Ok(opened) => {
                    &&& self.names().contains(field.spec_bytes())
                    &&& opened matches Ok(list) ==> {
                        &&& list@.contents == self.contents()
                        &&& list@.prefix < self.names().len()
                        &&& self.names()[list@.prefix as int] == field.spec_bytes()
                        &&& list@.len == recovered_len(self.contents(), list@.prefix)
                    }
                },
                Err(db) => db == self && !self.names().contains(field.spec_bytes()),
            },
    {
        match self.keys.get(field) {
            None => Err(self),
            Some(prefix) => Ok(Vec::open(self.ds, prefix)),
        }
    }

    /// The deque kept in `field`, with the store; its cursors are recovered
    /// from the store. The database is handed back where it has no such
    /// field, and where the cursors that the store gives bound no window.
    pub fn vec_deque(self, field: &str) -> (deque: Result<
        Result<VecDeque<DS>, Error<DS::DbError>>,
        Self,
    >)
        ensures
            match deque {
                Ok(opened) => {
                    &&& self.names().contains(field.spec_bytes())
                    &&& opened matches Ok(deque) ==> {
                        &&& deque@.wf()
                        &&& deque@.contents == self.contents()
                        &&& deque@.prefix < self.names().len()
                        &&& self.names()[deque@.prefix as int] == field.spec_bytes()
                        &&& deque@.head == recovered_head(self.contents(), deque@.prefix)
                        &&& deque@.tail == recovered_tail(self.contents(), deque@.prefix)
                    }
                },
                Err(db) => {
                    &&& db == self
                    &&& forall|prefix: u8|
                        prefix < self.names().len() && #[trigger] self.names()[prefix as int]
                            == field.spec_bytes() ==> recovered_head(self.contents(), prefix)
                            >= recovered_tail(self.contents(), prefix)
                },
            },
    {
        let prefix = match self.keys.get(field) {
            None => {
                return Err(self);
            },
            Some(prefix) => prefix,
        };
        proof {
            lemma_increasing_distinct(self.names());
        }
        match VecDeque::cursors(&self.ds, prefix) {
            Err(e) => Ok(Err(e)),
            Ok((head, tail)) => {
                if head < tail {
                    Ok(Ok(VecDeque::new(self.ds, prefix, head, tail)))
                } else {
                    Err(self)
                }
            },
        }
    }
}

} // verus!
