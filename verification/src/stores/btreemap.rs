//! An ordered store in memory: its entries are kept sorted by key.

use vstd::prelude::*;
use vstd::slice::slice_to_vec;
use crate::order::{
    compare, lemma_lex_asymmetric, lemma_lex_irreflexive, lemma_lex_total, lemma_lex_transitive,
    lex_lt, Side,
};
use crate::traits::byte_store::{
    applied, bound_view, entry_views, in_range, is_greatest_below, is_least_above,
    lemma_entry_above_is, lemma_entry_below_is, lookup, opt_slice, within, Atomic, Bound,
    ByteStore, Contents, Ordered, Ranged,
};

pub mod entries;

use entries::{
    as_contents, has_key, key_at, lemma_as_contents, lemma_as_contents_finite, lemma_insert_entry,
    lemma_remove_entry, picked, sorted,
};

verus! {

/// How the store in memory fails.
#[derive(Clone, Copy, Debug, PartialEq, Eq, Structural)]
pub enum Error {
    /// The store was poisoned: a user of it gave up while changing it.
    Poisoned,
}

/// A very simple store that keeps nothing when dropped and needs no path.
/// Its keys are ordered, so it supports list, deque and map.
#[derive(Debug)]
pub struct BTreeMap {
    entries: Vec<(Vec<u8>, Vec<u8>)>,
    poisoned: bool,
}

impl BTreeMap {
    #[verifier::type_invariant]
    spec fn inv(self) -> bool {
        sorted(self.entries@)
    }

    /// Whether the store was poisoned: every use of it then fails.
    pub closed spec fn is_poisoned(&self) -> bool {
        self.poisoned
    }

    /// An empty store.
    pub fn new() -> (store: Self)
        ensures
            store.contents() == Contents::empty(),
            !store.is_poisoned(),
    {
        BTreeMap { entries: Vec::new(), poisoned: false }
    }

    /// Poisons the store, so that every later use of it fails.
    pub fn force_error(&mut self)
        ensures
            final(self).is_poisoned(),
            final(self).contents() == old(self).contents(),
    {
        proof {
            use_type_invariant(&*self);
        }
        self.poisoned = true;
    }

    /// Where `key` is among the entries, or where it belongs.
    fn position(&self, key: &[u8]) -> (place: (usize, bool))
        ensures
            place.0 <= self.entries.len(),
            forall|j: int| 0 <= j < place.0 ==> lex_lt(#[trigger] key_at(self.entries@, j), key@),
            place.1 ==> place.0 < self.entries.len() && key_at(self.entries@, place.0 as int)
                == key@,
            forall|j: int|
                place.0 + (if place.1 { 1int } else { 0int }) <= j < self.entries.len()
                    ==> lex_lt(key@, #[trigger] key_at(self.entries@, j)),
            place.1 <==> self.contents().contains_key(key@),
    {
        proof {
            use_type_invariant(self);
            lemma_as_contents(self.entries@);
        }
        let mut i: usize = 0;
        while i < self.entries.len()
            invariant
                i <= self.entries.len(),
                sorted(self.entries@),
                forall|key: Seq<u8>| #[trigger]
                    as_contents(self.entries@).contains_key(key) <==> has_key(self.entries@, key),
                forall|j: int| 0 <= j < i ==> lex_lt(#[trigger] key_at(self.entries@, j), key@),
            decreases self.entries.len() - i,
        {
            let side = compare(self.entries[i].0.as_slice(), key);
            match side {
                Side::Before => {
                    i += 1;
                },
                Side::Same => {
                    proof {
                        assert forall|j: int| i + 1 <= j < self.entries.len() implies lex_lt(
                            key@,
                            #[trigger] key_at(self.entries@, j),
                        ) by {
                            assert(lex_lt(key_at(self.entries@, i as int), key_at(self.entries@, j)));
                        }
                    }
                    return (i, true);
                },
                Side::After => {
                    proof {
                        let here = key_at(self.entries@, i as int);
                        lemma_lex_total(here, key@);
                        assert forall|j: int| i <= j < self.entries.len() implies lex_lt(
                            key@,
                            #[trigger] key_at(self.entries@, j),
                        ) by {
                            if j > i {
                                lemma_lex_transitive(key@, here, key_at(self.entries@, j));
                            }
                        }
                        if has_key(self.entries@, key@) {
                            lemma_lex_irreflexive(key@);
                        }
                    }
                    return (i, false);
                },
            }
        }
        proof {
            if has_key(self.entries@, key@) {
                lemma_lex_irreflexive(key@);
            }
        }
        (i, false)
    }
}

impl Default for BTreeMap {
    /// An empty store.
    fn default() -> (store: Self)
        ensures
            store.contents() == Contents::empty(),
            !store.is_poisoned(),
    {
        BTreeMap::new()
    }
}

impl ByteStore for BTreeMap {
    type DbError = Error;

    closed spec fn contents(&self) -> Contents {
        as_contents(self.entries@)
    }

    proof fn lemma_finite(&self) {
        lemma_as_contents_finite(self.entries@);
    }

    fn get(&self, key: &[u8]) -> (found: Result<Option<Vec<u8>>, Error>)
        ensures
            found is Err <==> self.is_poisoned(),
    {
        if self.poisoned {
            return Err(Error::Poisoned);
        }
        proof {
            use_type_invariant(self);
            lemma_as_contents(self.entries@);
        }
        let (at, present) = self.position(key);
        if present {
            let val = slice_to_vec(self.entries[at].1.as_slice());
            Ok(Some(val))
        } else {
            Ok(None)
        }
    }

    fn remove(&mut self, key: &[u8]) -> (removed: Result<Option<Vec<u8>>, Error>)
        ensures
            removed is Err <==> old(self).is_poisoned(),
            final(self).is_poisoned() == old(self).is_poisoned(),
            removed is Err ==> final(self).contents() == old(self).contents(),
    {
        if self.poisoned {
            return Err(Error::Poisoned);
        }
        proof {
            use_type_invariant(&*self);
            lemma_as_contents(self.entries@);
        }
        let (at, present) = self.position(key);
        if present {
            proof {
                lemma_remove_entry(self.entries@, at as int);
            }
            let mut entries: Vec<(Vec<u8>, Vec<u8>)> = Vec::new();
            core::mem::swap(&mut self.entries, &mut entries);
            let entry = entries.remove(at);
            core::mem::swap(&mut self.entries, &mut entries);
            Ok(Some(entry.1))
        } else {
            Ok(None)
        }
    }

    fn insert(&mut self, key: &[u8], val: &[u8]) -> (previous: Result<Option<Vec<u8>>, Error>)
        ensures
            previous is Err <==> old(self).is_poisoned(),
            final(self).is_poisoned() == old(self).is_poisoned(),
            previous is Err ==> final(self).contents() == old(self).contents(),
    {
        if self.poisoned {
            return Err(Error::Poisoned);
        }
        proof {
            use_type_invariant(&*self);
            lemma_as_contents(self.entries@);
        }
        let (at, present) = self.position(key);
        let entry = (slice_to_vec(key), slice_to_vec(val));
        let mut entries: Vec<(Vec<u8>, Vec<u8>)> = Vec::new();
        if present {
            proof {
                lemma_remove_entry(self.entries@, at as int);
            }
            core::mem::swap(&mut self.entries, &mut entries);
            let before = entries.remove(at);
            proof {
                let shrunk = entries@;
                assert forall|j: int| at <= j < shrunk.len() implies lex_lt(
                    entry.0@,
                    #[trigger] key_at(shrunk, j),
                ) by {}
                assert forall|j: int| 0 <= j < at implies lex_lt(
                    #[trigger] key_at(shrunk, j),
                    entry.0@,
                ) by {
                    assert(key_at(shrunk, j) == key_at(old(self).entries@, j));
                }
                lemma_insert_entry(shrunk, at as int, entry);
                assert(old(self).contents().remove(key@).insert(key@, val@) =~= old(
                    self,
                ).contents().insert(key@, val@));
            }
            entries.insert(at, entry);
            core::mem::swap(&mut self.entries, &mut entries);
            Ok(Some(before.1))
        } else {
            proof {
                lemma_insert_entry(self.entries@, at as int, entry);
            }
            core::mem::swap(&mut self.entries, &mut entries);
            entries.insert(at, entry);
            core::mem::swap(&mut self.entries, &mut entries);
            Ok(None)
        }
    }
}

impl Ordered for BTreeMap {
    fn get_lt(&self, key: &[u8]) -> (found: Result<Option<(Vec<u8>, Vec<u8>)>, Error>)
        ensures
            found is Err <==> self.is_poisoned(),
    {
        if self.poisoned {
            return Err(Error::Poisoned);
        }
        proof {
            use_type_invariant(self);
            lemma_as_contents(self.entries@);
        }
        let (at, _present) = self.position(key);
        if at == 0 {
            proof {
                if exists|below: Seq<u8>| is_greatest_below(self.contents(), key@, below) {
                    let below = choose|below: Seq<u8>|
                        is_greatest_below(self.contents(), key@, below);
                    if lex_lt(key@, below) {
                        lemma_lex_asymmetric(key@, below);
                    } else {
                        lemma_lex_irreflexive(key@);
                    }
                }
            }
            Ok(None)
        } else {
            let entry = &self.entries[at - 1];
            let below = (slice_to_vec(entry.0.as_slice()), slice_to_vec(entry.1.as_slice()));
            proof {
                let top = key_at(self.entries@, at - 1);
                assert forall|other: Seq<u8>|
                    self.contents().contains_key(other) && lex_lt(other, key@) implies other == top
                    || lex_lt(other, top) by {
                    let i = choose|i: int|
                        0 <= i < self.entries.len() && key_at(self.entries@, i) == other;
                    if i >= at {
                        if lex_lt(key@, other) {
                            lemma_lex_asymmetric(key@, other);
                        } else {
                            lemma_lex_irreflexive(key@);
                        }
                    }
                }
                lemma_entry_below_is(self.contents(), key@, top);
            }
            Ok(Some(below))
        }
    }

    fn get_gt(&self, key: &[u8]) -> (found: Result<Option<(Vec<u8>, Vec<u8>)>, Error>)
        ensures
            found is Err <==> self.is_poisoned(),
    {
        if self.poisoned {
            return Err(Error::Poisoned);
        }
        proof {
            use_type_invariant(self);
            lemma_as_contents(self.entries@);
        }
        let (at, present) = self.position(key);
        let next = if present {
            at + 1
        } else {
            at
        };
        if next >= self.entries.len() {
            proof {
                if exists|above: Seq<u8>| is_least_above(self.contents(), key@, above) {
                    let above = choose|above: Seq<u8>|
                        is_least_above(self.contents(), key@, above);
                    let i = choose|i: int|
                        0 <= i < self.entries.len() && key_at(self.entries@, i) == above;
                    if i < at {
                        lemma_lex_asymmetric(key@, above);
                    } else {
                        lemma_lex_irreflexive(key@);
                    }
                }
            }
            Ok(None)
        } else {
            let entry = &self.entries[next];
            let above = (slice_to_vec(entry.0.as_slice()), slice_to_vec(entry.1.as_slice()));
            proof {
                let low = key_at(self.entries@, next as int);
                assert forall|other: Seq<u8>|
                    self.contents().contains_key(other) && lex_lt(key@, other) implies other == low
                    || lex_lt(low, other) by {
                    let i = choose|i: int|
                        0 <= i < self.entries.len() && key_at(self.entries@, i) == other;
                    if i < at {
                        lemma_lex_asymmetric(key@, other);
                    } else if i < next {
                        lemma_lex_irreflexive(key@);
                    }
                }
                lemma_entry_above_is(self.contents(), key@, low);
            }
            Ok(Some(above))
        }
    }
}

impl Atomic for BTreeMap {
    fn atomic_update<T, F: Fn(Option<&[u8]>) -> (Option<Vec<u8>>, T)>(
        &mut self,
        key: &[u8],
        op: F,
    ) -> (updated: Result<T, Error>)
        ensures
            updated is Err <==> old(self).is_poisoned(),
            final(self).is_poisoned() == old(self).is_poisoned(),
            updated is Err ==> final(self).contents() == old(self).contents(),
    {
        if self.poisoned {
            return Err(Error::Poisoned);
        }
        proof {
            use_type_invariant(&*self);
            lemma_as_contents(self.entries@);
        }
        let (at, present) = self.position(key);
        let current: Option<&[u8]> = if present {
            Some(self.entries[at].1.as_slice())
        } else {
            None
        };
        proof {
            assert(opt_slice(current) == lookup(self.contents(), key@));
        }
        let outcome = op(current);
        let ghost witness = outcome;
        let ghost seen = current;
        let (new, report) = outcome;
        match new {
            Some(val) => {
                match self.insert(key, val.as_slice()) {
                    Ok(_) => {},
                    Err(e) => {
                        return Err(e);
                    },
                }
            },
            None => {
                match self.remove(key) {
                    Ok(_) => {},
                    Err(e) => {
                        return Err(e);
                    },
                }
            },
        }
        proof {
            assert(applied(op, seen, witness.0, report));
        }
        Ok(report)
    }

    fn conditional_update(&mut self, key: &[u8], new: &[u8], expected: &[u8]) -> (updated: Result<
        (),
        Error,
    >)
        ensures
            updated is Err <==> old(self).is_poisoned(),
            final(self).is_poisoned() == old(self).is_poisoned(),
            updated is Err ==> final(self).contents() == old(self).contents(),
    {
        if self.poisoned {
            return Err(Error::Poisoned);
        }
        proof {
            use_type_invariant(&*self);
            lemma_as_contents(self.entries@);
        }
        let (at, present) = self.position(key);
        if present {
            let same = compare(self.entries[at].1.as_slice(), expected);
            if same == Side::Same {
                match self.insert(key, new) {
                    Ok(_) => {},
                    Err(e) => {
                        return Err(e);
                    },
                }
            }
        }
        Ok(())
    }
}

impl Ranged for BTreeMap {
    fn range(&self, start: Bound<&[u8]>, end: Bound<&[u8]>) -> (found: Result<
        Vec<(Vec<u8>, Vec<u8>)>,
        Error,
    >)
        ensures
            found is Err <==> self.is_poisoned(),
    {
        if self.poisoned {
            return Err(Error::Poisoned);
        }
        proof {
            use_type_invariant(self);
            lemma_as_contents(self.entries@);
        }
        let mut found: Vec<(Vec<u8>, Vec<u8>)> = Vec::new();
        let ghost mut from: Seq<int> = Seq::empty();
        let mut i: usize = 0;
        while i < self.entries.len()
            invariant
                i <= self.entries.len(),
                sorted(self.entries@),
                from.len() == found.len(),
                forall|m: int| 0 <= m < from.len() ==> picked(self.entries@, found@, from, m),
                forall|m: int| 0 <= m < from.len() ==> #[trigger] from[m] < i,
                forall|m: int, n: int| 0 <= m < n < from.len() ==> from[m] < from[n],
                forall|m: int|
                    0 <= m < from.len() ==> within(
                        key_at(self.entries@, #[trigger] from[m]),
                        bound_view(start),
                        bound_view(end),
                    ),
                forall|j: int|
                    0 <= j < i && within(
                        #[trigger] key_at(self.entries@, j),
                        bound_view(start),
                        bound_view(end),
                    ) ==> from.contains(j),
            decreases self.entries.len() - i,
        {
            let entry = &self.entries[i];
            if in_range(entry.0.as_slice(), &start, &end) {
                let copy = (slice_to_vec(entry.0.as_slice()), slice_to_vec(entry.1.as_slice()));
                let ghost before = from;
                let ghost had = found@;
                found.push(copy);
                proof {
                    from = before.push(i as int);
                    assert forall|m: int| 0 <= m < from.len() implies picked(
                        self.entries@,
                        found@,
                        from,
                        m,
                    ) by {
                        if m < before.len() {
                            assert(picked(self.entries@, had, before, m));
                        }
                    }
                    assert forall|m: int, n: int| 0 <= m < n < from.len() implies from[m]
                        < from[n] by {}
                    assert forall|j: int|
                        0 <= j < i + 1 && within(
                            #[trigger] key_at(self.entries@, j),
                            bound_view(start),
                            bound_view(end),
                        ) implies from.contains(j) by {
                        if j < i {
                            let m = choose|m: int| 0 <= m < before.len() && before[m] == j;
                            assert(from[m] == j);
                        } else {
                            assert(from[before.len() as int] == j);
                        }
                    }
                }
            }
            i += 1;
        }
        proof {
            let out = entry_views(found@);
            assert forall|m: int, n: int| 0 <= m < n < out.len() implies lex_lt(
                (#[trigger] out[m]).0,
                (#[trigger] out[n]).0,
            ) by {
                assert(picked(self.entries@, found@, from, m));
                assert(picked(self.entries@, found@, from, n));
            }
            assert forall|m: int| 0 <= m < out.len() implies {
                &&& self.contents().contains_key((#[trigger] out[m]).0)
                &&& self.contents()[out[m].0] == out[m].1
                &&& within(out[m].0, bound_view(start), bound_view(end))
            } by {
                assert(picked(self.entries@, found@, from, m));
            }
            assert forall|key: Seq<u8>| #[trigger]
                self.contents().contains_key(key) && within(
                    key,
                    bound_view(start),
                    bound_view(end),
                ) implies exists|m: int| 0 <= m < out.len() && (#[trigger] out[m]).0 == key by {
                let j = choose|j: int| 0 <= j < self.entries.len() && key_at(self.entries@, j) == key;
                let m = choose|m: int| 0 <= m < from.len() && from[m] == j;
                assert(picked(self.entries@, found@, from, m));
                assert(out[m].0 == key);
            }
        }
        Ok(found)
    }
}

} // verus!
