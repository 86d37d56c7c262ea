//! Stores of raw bytes, and what any of them promises.
//!
//! The contents of a store are a finite map from keys to values, both byte
//! strings. An operation that fails promises nothing about the contents.

use vstd::prelude::*;
use crate::order::{
    compare, lemma_lex_asymmetric, lemma_lex_irreflexive, lemma_lex_total, lemma_lex_transitive,
    lex_le, lex_lt, Side,
};

verus! {

/// The contents of a store.
pub type Contents = Map<Seq<u8>, Seq<u8>>;

/// The value under `key`, if there is one.
pub open spec fn lookup(contents: Contents, key: Seq<u8>) -> Option<Seq<u8>> {
    if contents.contains_key(key) {
        Some(contents[key])
    } else {
        None
    }
}

/// The contents after the value under `key` was set to `val`, or removed
/// where `val` is `None`.
pub open spec fn written(contents: Contents, key: Seq<u8>, val: Option<Seq<u8>>) -> Contents {
    match val {
        Some(bytes) => contents.insert(key, bytes),
        None => contents.remove(key),
    }
}

/// The contents after `new` was put under `key` if the value there was
/// `expected`.
pub open spec fn swapped(
    contents: Contents,
    key: Seq<u8>,
    new: Seq<u8>,
    expected: Seq<u8>,
) -> Contents {
    if lookup(contents, key) == Some(expected) {
        contents.insert(key, new)
    } else {
        contents
    }
}

/// `op`, given `current`, may answer with the value `new` and the report
/// `report`.
pub open spec fn applied<T, F: Fn(Option<&[u8]>) -> (Option<Vec<u8>>, T)>(
    op: F,
    current: Option<&[u8]>,
    new: Option<Vec<u8>>,
    report: T,
) -> bool {
    op.ensures((current,), (new, report))
}

/// `op` changed the value under `key` and gave `report`: it was given the
/// value that `before` holds there and `after` holds what it answered.
pub open spec fn updated_by<T, F: Fn(Option<&[u8]>) -> (Option<Vec<u8>>, T)>(
    op: F,
    before: Contents,
    key: Seq<u8>,
    report: T,
    after: Contents,
) -> bool {
    exists|current: Option<&[u8]>, new: Option<Vec<u8>>| #[trigger]
        applied(op, current, new, report) && opt_slice(current) == lookup(before, key) && after
            == written(before, key, opt_bytes(new))
}

/// What an optional byte vector holds.
pub open spec fn opt_bytes(val: Option<Vec<u8>>) -> Option<Seq<u8>> {
    match val {
        Some(bytes) => Some(bytes@),
        None => None,
    }
}

/// What an optional byte slice holds.
pub open spec fn opt_slice(val: Option<&[u8]>) -> Option<Seq<u8>> {
    match val {
        Some(bytes) => Some(bytes@),
        None => None,
    }
}

/// What an optional entry holds.
pub open spec fn opt_entry(entry: Option<(Vec<u8>, Vec<u8>)>) -> Option<(Seq<u8>, Seq<u8>)> {
    match entry {
        Some((key, val)) => Some((key@, val@)),
        None => None,
    }
}

/// `key` is the greatest key of the contents that is strictly before `bound`.
pub open spec fn is_greatest_below(contents: Contents, bound: Seq<u8>, key: Seq<u8>) -> bool {
    &&& contents.contains_key(key)
    &&& lex_lt(key, bound)
    &&& forall|other: Seq<u8>|
        contents.contains_key(other) && lex_lt(other, bound) ==> other == key || lex_lt(other, key)
}

/// `key` is the least key of the contents that is strictly after `bound`.
pub open spec fn is_least_above(contents: Contents, bound: Seq<u8>, key: Seq<u8>) -> bool {
    &&& contents.contains_key(key)
    &&& lex_lt(bound, key)
    &&& forall|other: Seq<u8>|
        contents.contains_key(other) && lex_lt(bound, other) ==> other == key || lex_lt(key, other)
}

/// The entry just before `bound`: the greatest key strictly before it, with
/// its value. `None` where no key is before `bound`.
pub open spec fn entry_below(contents: Contents, bound: Seq<u8>) -> Option<(Seq<u8>, Seq<u8>)> {
    if exists|key: Seq<u8>| is_greatest_below(contents, bound, key) {
        let key = choose|key: Seq<u8>| is_greatest_below(contents, bound, key);
        Some((key, contents[key]))
    } else {
        None
    }
}

/// The entry just after `bound`: the least key strictly after it, with its
/// value. `None` where no key is after `bound`.
pub open spec fn entry_above(contents: Contents, bound: Seq<u8>) -> Option<(Seq<u8>, Seq<u8>)> {
    if exists|key: Seq<u8>| is_least_above(contents, bound, key) {
        let key = choose|key: Seq<u8>| is_least_above(contents, bound, key);
        Some((key, contents[key]))
    } else {
        None
    }
}

/// A store of raw bytes: the least a database has to offer.
pub trait ByteStore {
    /// How the store reports that it failed.
    type DbError;

    /// What the store holds.
    spec fn contents(&self) -> Contents;

    /// A store holds finitely many keys.
    proof fn lemma_finite(&self)
        ensures
            self.contents().dom().finite(),
    ;

    /// Reads the value under `key`.
    fn get(&self, key: &[u8]) -> (found: Result<Option<Vec<u8>>, Self::DbError>)
        ensures
            found matches Ok(val) ==> opt_bytes(val) == lookup(self.contents(), key@),
    ;

    /// Removes `key` and returns the value that was under it.
    fn remove(&mut self, key: &[u8]) -> (removed: Result<Option<Vec<u8>>, Self::DbError>)
        ensures
            removed matches Ok(val) ==> {
                &&& opt_bytes(val) == lookup(old(self).contents(), key@)
                &&& final(self).contents() == old(self).contents().remove(key@)
            },
    ;

    /// Puts `val` under `key` and returns the value that was there before.
    fn insert(&mut self, key: &[u8], val: &[u8]) -> (previous: Result<
        Option<Vec<u8>>,
        Self::DbError,
    >)
        ensures
            previous matches Ok(prev) ==> {
                &&& opt_bytes(prev) == lookup(old(self).contents(), key@)
                &&& final(self).contents() == old(self).contents().insert(key@, val@)
            },
    ;
}

/// A store that can look up the neighbours of a key in the order of
/// [`lex_lt`].
pub trait Ordered: ByteStore {
    /// The entry with the greatest key strictly before `key`.
    fn get_lt(&self, key: &[u8]) -> (found: Result<Option<(Vec<u8>, Vec<u8>)>, Self::DbError>)
        ensures
            found matches Ok(entry) ==> opt_entry(entry) == entry_below(self.contents(), key@),
    ;

    /// The entry with the least key strictly after `key`.
    fn get_gt(&self, key: &[u8]) -> (found: Result<Option<(Vec<u8>, Vec<u8>)>, Self::DbError>)
        ensures
            found matches Ok(entry) ==> opt_entry(entry) == entry_above(self.contents(), key@),
    ;
}

/// A store that can change one key in one step, so that no change of
/// another user of the store is lost in between.
pub trait Atomic: ByteStore {
    /// Replaces the value under `key` by what `op` makes of it. `op` gets the
    /// value as it is, or `None` where the key is absent, and returns the
    /// value to be, or `None` for the key to be absent, together with a
    /// report that is handed on to the caller.
    fn atomic_update<T, F: Fn(Option<&[u8]>) -> (Option<Vec<u8>>, T)>(
        &mut self,
        key: &[u8],
        op: F,
    ) -> (updated: Result<T, Self::DbError>)
        requires
            forall|current: Option<&[u8]>|
                opt_slice(current) == lookup(old(self).contents(), key@) ==> op.requires(
                    (current,),
                ),
        ensures
            updated matches Ok(report) ==> updated_by(
                op,
                old(self).contents(),
                key@,
                report,
                final(self).contents(),
            ),
    ;

    /// Puts `new` under `key` if the value there is `expected`, and does
    /// nothing otherwise.
    fn conditional_update(&mut self, key: &[u8], new: &[u8], expected: &[u8]) -> (updated: Result<
        (),
        Self::DbError,
    >)
        ensures
            updated is Ok ==> final(self).contents() == swapped(
                old(self).contents(),
                key@,
                new@,
                expected@,
            ),
    ;
}

/// One end of a range of keys.
#[derive(Debug)]
pub enum Bound<T> {
    /// The range goes up to the key, and holds it.
    Included(T),
    /// The range goes up to the key, and does not hold it.
    Excluded(T),
    /// The range has no end on this side.
    Unbounded,
}

/// The bytes of the key at the end of a range.
pub open spec fn bound_view(bound: Bound<&[u8]>) -> Bound<Seq<u8>> {
    match bound {
        Bound::Included(key) => Bound::Included(key@),
        Bound::Excluded(key) => Bound::Excluded(key@),
        Bound::Unbounded => Bound::Unbounded,
    }
}

/// `key` is not before the start of a range.
pub open spec fn after_start(key: Seq<u8>, start: Bound<Seq<u8>>) -> bool {
    match start {
        Bound::Included(low) => lex_le(low, key),
        Bound::Excluded(low) => lex_lt(low, key),
        Bound::Unbounded => true,
    }
}

/// `key` is not after the end of a range.
pub open spec fn before_end(key: Seq<u8>, end: Bound<Seq<u8>>) -> bool {
    match end {
        Bound::Included(high) => lex_le(key, high),
        Bound::Excluded(high) => lex_lt(key, high),
        Bound::Unbounded => true,
    }
}

/// `key` lies in the range from `start` to `end`.
pub open spec fn within(key: Seq<u8>, start: Bound<Seq<u8>>, end: Bound<Seq<u8>>) -> bool {
    after_start(key, start) && before_end(key, end)
}

/// What each of `entries` holds.
pub open spec fn entry_views(entries: Seq<(Vec<u8>, Vec<u8>)>) -> Seq<(Seq<u8>, Seq<u8>)> {
    Seq::new(entries.len(), |i: int| (entries[i].0@, entries[i].1@))
}

/// `entries` are the entries of the contents with a key in the range from
/// `start` to `end`, each once, in the order of their keys.
pub open spec fn is_range(
    contents: Contents,
    start: Bound<Seq<u8>>,
    end: Bound<Seq<u8>>,
    entries: Seq<(Seq<u8>, Seq<u8>)>,
) -> bool {
    &&& forall|i: int, j: int|
        0 <= i < j < entries.len() ==> lex_lt((#[trigger] entries[i]).0, (#[trigger] entries[j]).0)
    &&& forall|i: int|
        0 <= i < entries.len() ==> {
            &&& contents.contains_key((#[trigger] entries[i]).0)
            &&& contents[entries[i].0] == entries[i].1
            &&& within(entries[i].0, start, end)
        }
    &&& forall|key: Seq<u8>| #[trigger]
        contents.contains_key(key) && within(key, start, end) ==> exists|i: int|
            0 <= i < entries.len() && (#[trigger] entries[i]).0 == key
}

/// Whether `key` lies in the range from `start` to `end`.
pub fn in_range(key: &[u8], start: &Bound<&[u8]>, end: &Bound<&[u8]>) -> (inside: bool)
    ensures
        inside == within(key@, bound_view(*start), bound_view(*end)),
{
    let from = match start {
        Bound::Included(low) => {
            proof {
                if lex_lt(key@, low@) {
                    lemma_lex_asymmetric(key@, low@);
                    lemma_lex_irreflexive(key@);
                }
            }
            compare(low, key) != Side::After
        },
        Bound::Excluded(low) => {
            proof {
                lemma_lex_irreflexive(key@);
            }
            compare(low, key) == Side::Before
        },
        Bound::Unbounded => true,
    };
    let to = match end {
        Bound::Included(high) => {
            proof {
                if lex_lt(high@, key@) {
                    lemma_lex_asymmetric(high@, key@);
                    lemma_lex_irreflexive(key@);
                }
            }
            compare(key, high) != Side::After
        },
        Bound::Excluded(high) => {
            proof {
                lemma_lex_irreflexive(key@);
            }
            compare(key, high) == Side::Before
        },
        Bound::Unbounded => true,
    };
    from && to
}

/// A store that can hand out all the entries in a range of keys at once.
pub trait Ranged: Ordered {
    /// The entries with a key in the range from `start` to `end`, in the
    /// order of their keys.
    fn range(&self, start: Bound<&[u8]>, end: Bound<&[u8]>) -> (found: Result<
        Vec<(Vec<u8>, Vec<u8>)>,
        Self::DbError,
    >)
        ensures
            found matches Ok(entries) ==> is_range(
                self.contents(),
                bound_view(start),
                bound_view(end),
                entry_views(entries@),
            ),
    ;
}

/// At most one key is the greatest before a bound.
pub proof fn lemma_greatest_below_unique(
    contents: Contents,
    bound: Seq<u8>,
    first: Seq<u8>,
    second: Seq<u8>,
)
    requires
        is_greatest_below(contents, bound, first),
        is_greatest_below(contents, bound, second),
    ensures
        first == second,
{
    if first != second {
        lemma_lex_asymmetric(first, second);
    }
}

/// At most one key is the least after a bound.
pub proof fn lemma_least_above_unique(
    contents: Contents,
    bound: Seq<u8>,
    first: Seq<u8>,
    second: Seq<u8>,
)
    requires
        is_least_above(contents, bound, first),
        is_least_above(contents, bound, second),
    ensures
        first == second,
{
    if first != second {
        lemma_lex_asymmetric(first, second);
    }
}

/// Where `key` is the greatest key before `bound`, it is the entry below.
pub proof fn lemma_entry_below_is(contents: Contents, bound: Seq<u8>, key: Seq<u8>)
    requires
        is_greatest_below(contents, bound, key),
    ensures
        entry_below(contents, bound) == Some((key, contents[key])),
{
    let chosen = choose|k: Seq<u8>| is_greatest_below(contents, bound, k);
    lemma_greatest_below_unique(contents, bound, key, chosen);
}

/// Where `key` is the least key after `bound`, it is the entry above.
pub proof fn lemma_entry_above_is(contents: Contents, bound: Seq<u8>, key: Seq<u8>)
    requires
        is_least_above(contents, bound, key),
    ensures
        entry_above(contents, bound) == Some((key, contents[key])),
{
    let chosen = choose|k: Seq<u8>| is_least_above(contents, bound, k);
    lemma_least_above_unique(contents, bound, key, chosen);
}

/// Where some key of the contents is after `bound`, one of them is the
/// least.
pub proof fn lemma_least_above_exists(contents: Contents, bound: Seq<u8>, some: Seq<u8>)
    requires
        contents.dom().finite(),
        contents.contains_key(some),
        lex_lt(bound, some),
    ensures
        exists|least: Seq<u8>| is_least_above(contents, bound, least),
    decreases contents.dom().len(),
{
    if !is_least_above(contents, bound, some) {
        let smaller = choose|other: Seq<u8>|
            contents.contains_key(other) && lex_lt(bound, other) && !(other == some || lex_lt(
                some,
                other,
            ));
        lemma_lex_total(smaller, some);
        let rest = contents.remove(some);
        lemma_least_above_exists(rest, bound, smaller);
        let least = choose|least: Seq<u8>| is_least_above(rest, bound, least);
        if least != smaller {
            lemma_lex_transitive(least, smaller, some);
        }
        assert(is_least_above(contents, bound, least));
    }
}

} // verus!
