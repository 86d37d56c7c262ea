//! Walking through a map: from its prefix on, from each key to the next,
//! until a key of another collection comes.

use vstd::prelude::*;
use vstd::slice::{slice_subrange, slice_to_vec};
use crate::key::{has_prefix, lemma_order_prefix, scalar_key, sub_key};
use crate::order::{lex_lt, precedes_at};
use crate::traits::byte_store::{
    entry_views, is_least_above, is_range, lemma_least_above_exists, Bound, ByteStore,
    Ordered, Ranged,
};
use crate::wrapper::map::{is_listed, DbMap, Stored};
use crate::Error;

verus! {

/// A cursor over a map. It holds the key it met last, so the map can change
/// while the cursor is in use, and the cursor sees the changes.
#[derive(Debug)]
pub struct Iter {
    pub prefix: u8,
    pub prev_key_bytes: Vec<u8>,
}

impl Iter {
    /// What the cursor walks through where it is used on `map`: the store
    /// of `map`, under the prefix of the cursor. It is `map` where the
    /// cursor was made by it.
    pub open spec fn walked(&self, map: Stored) -> Stored {
        Stored { prefix: self.prefix, ..map }
    }

    /// The next entry of the map in the order of the keys, as its key
    /// without the prefix and its value; `None` after the last. The cursor
    /// moves on to the entry it gives.
    pub fn next<DS: Ordered>(&mut self, map: &DbMap<DS>) -> (item: Option<
        Result<(Vec<u8>, Vec<u8>), Error<DS::DbError>>,
    >)
        ensures
            final(self).prefix == old(self).prefix,
            match item {
                None => {
                    &&& old(self).walked(map@).next_after(old(self).prev_key_bytes@) is None
                    &&& final(self).prev_key_bytes@ == old(self).prev_key_bytes@
                },
                Some(Ok((key, value))) => {
                    &&& old(self).walked(map@).next_after(old(self).prev_key_bytes@) == Some(
                        (sub_key(old(self).prefix, key@), value@),
                    )
                    &&& final(self).prev_key_bytes@ == sub_key(old(self).prefix, key@)
                },
                Some(Err(Error::Database(_))) => final(self).prev_key_bytes@ == old(
                    self,
                ).prev_key_bytes@,
                Some(Err(_)) => false,
            },
    {
        let (full, value) = match map.ds.get_gt(self.prev_key_bytes.as_slice()) {
            Ok(Some(entry)) => entry,
            Ok(None) => {
                return None;
            },
            Err(e) => {
                return Some(Err(Error::Database(e)));
            },
        };
        if full.len() == 0 || full[0] != self.prefix {
            return None;
        }
        let key = slice_to_vec(slice_subrange(full.as_slice(), 1, full.len()));
        self.prev_key_bytes = full;
        Some(Ok((key, value)))
    }
}

/// A cursor over the values of a map.
#[derive(Debug)]
pub struct Values(pub Iter);

impl Values {
    /// The value of the next entry of the map; `None` after the last.
    pub fn next<DS: Ordered>(&mut self, map: &DbMap<DS>) -> (item: Option<
        Result<Vec<u8>, Error<DS::DbError>>,
    >)
        ensures
            final(self).0.prefix == old(self).0.prefix,
            match item {
                None => {
                    &&& old(self).0.walked(map@).next_after(old(self).0.prev_key_bytes@) is None
                    &&& final(self).0.prev_key_bytes@ == old(self).0.prev_key_bytes@
                },
                Some(Ok(value)) => {
                    &&& old(self).0.walked(map@).next_after(old(self).0.prev_key_bytes@) == Some(
                        (final(self).0.prev_key_bytes@, value@),
                    )
                },
                Some(Err(Error::Database(_))) => final(self).0.prev_key_bytes@ == old(
                    self,
                ).0.prev_key_bytes@,
                Some(Err(_)) => false,
            },
    {
        match self.0.next(map) {
            None => None,
            Some(Ok((_key, value))) => Some(Ok(value)),
            Some(Err(e)) => Some(Err(e)),
        }
    }
}

/// A cursor over the keys of a map.
#[derive(Debug)]
pub struct Keys(pub Iter);

impl Keys {
    /// The key of the next entry of the map, without the prefix; `None`
    /// after the last.
    pub fn next<DS: Ordered>(&mut self, map: &DbMap<DS>) -> (item: Option<
        Result<Vec<u8>, Error<DS::DbError>>,
    >)
        ensures
            final(self).0.prefix == old(self).0.prefix,
            match item {
                None => {
                    &&& old(self).0.walked(map@).next_after(old(self).0.prev_key_bytes@) is None
                    &&& final(self).0.prev_key_bytes@ == old(self).0.prev_key_bytes@
                },
                Some(Ok(key)) => {
                    &&& old(self).0.walked(map@).next_after(old(self).0.prev_key_bytes@) matches Some(
                        (full, _),
                    )
                    &&& full == sub_key(old(self).0.prefix, key@)
                    &&& final(self).0.prev_key_bytes@ == full
                },
                Some(Err(Error::Database(_))) => final(self).0.prev_key_bytes@ == old(
                    self,
                ).0.prev_key_bytes@,
                Some(Err(_)) => false,
            },
    {
        match self.0.next(map) {
            None => None,
            Some(Ok((key, _value))) => Some(Ok(key)),
            Some(Err(e)) => Some(Err(e)),
        }
    }
}

impl<DS: ByteStore> DbMap<DS> {
    /// A cursor before the first entry of the map.
    pub fn iter(&self) -> (cursor: Iter)
        ensures
            cursor.prefix == self@.prefix,
            cursor.prev_key_bytes@ == scalar_key(self@.prefix),
    {
        Iter { prefix: self.prefix, prev_key_bytes: vec![self.prefix] }
    }

    /// A cursor before the first entry of the map, which gives the values.
    pub fn values(&self) -> (cursor: Values)
        ensures
            cursor.0.prefix == self@.prefix,
            cursor.0.prev_key_bytes@ == scalar_key(self@.prefix),
    {
        Values(self.iter())
    }

    /// A cursor before the first entry of the map, which gives the keys.
    pub fn keys(&self) -> (cursor: Keys)
        ensures
            cursor.0.prefix == self@.prefix,
            cursor.0.prev_key_bytes@ == scalar_key(self@.prefix),
    {
        Keys(self.iter())
    }
}

/// `pairs` are the entries that a walk through the map meets, each once, in
/// the order of their keys, as the key without the prefix and the value.
pub open spec fn is_walk(map: Stored, pairs: Seq<(Seq<u8>, Seq<u8>)>) -> bool {
    &&& forall|i: int, j: int|
        0 <= i < j < pairs.len() ==> lex_lt((#[trigger] pairs[i]).0, (#[trigger] pairs[j]).0)
    &&& forall|i: int|
        0 <= i < pairs.len() ==> {
            &&& (#[trigger] pairs[i]).0.len() > 0
            &&& map.get(pairs[i].0) == Some(pairs[i].1)
        }
    &&& forall|full: Seq<u8>| #[trigger]
        map.listed().contains(full) ==> exists|i: int|
            0 <= i < pairs.len() && map.full_key((#[trigger] pairs[i]).0) == full
}

/// A key lies between the prefix of a map and the next prefix just when a
/// walk through the map meets it.
pub proof fn lemma_listed_is_a_range(key: Seq<u8>, prefix: u8)
    ensures
        is_listed(key, prefix) <==> lex_lt(scalar_key(prefix), key) && (prefix == 255 || lex_lt(
            key,
            scalar_key((prefix + 1) as u8),
        )),
{
    let low = scalar_key(prefix);
    if is_listed(key, prefix) {
        assert(precedes_at(low, key, 1));
        if prefix < 255 {
            assert(precedes_at(key, scalar_key((prefix + 1) as u8), 0));
        }
    }
}

/// Keys with one first byte are in the order of what follows it.
pub proof fn lemma_sub_key_order(prefix: u8, first: Seq<u8>, second: Seq<u8>)
    requires
        lex_lt(sub_key(prefix, first), sub_key(prefix, second)),
    ensures
        lex_lt(first, second),
{
    let a = sub_key(prefix, first);
    let b = sub_key(prefix, second);
    let at = choose|at: int| precedes_at(a, b, at);
    assert forall|j: int| 0 <= j < at - 1 implies first[j] == second[j] by {
        assert(a[j + 1] == b[j + 1]);
    }
    assert(precedes_at(first, second, at - 1));
}

impl<DS: Ranged> DbMap<DS> {
    /// All the entries that a walk through the map meets, in the order of
    /// their keys, as the key without the prefix and the value. They are
    /// asked of the store as one range, from the prefix of the map to the
    /// next prefix.
    pub fn entries(&self) -> (found: Result<Vec<(Vec<u8>, Vec<u8>)>, Error<DS::DbError>>)
        ensures
            match found {
                Ok(pairs) => is_walk(self@, entry_views(pairs@)),
                Err(Error::Database(_)) => true,
                Err(_) => false,
            },
    {
        let low: Vec<u8> = vec![self.prefix];
        let high: Vec<u8> = if self.prefix < 255 {
            vec![self.prefix + 1]
        } else {
            Vec::new()
        };
        let end: Bound<&[u8]> = if self.prefix < 255 {
            Bound::Excluded(high.as_slice())
        } else {
            Bound::Unbounded
        };
        proof {
            assert(low@ =~= scalar_key(self.prefix));
            if self.prefix < 255 {
                assert(high@ =~= scalar_key((self.prefix + 1) as u8));
            }
        }
        let ghost span = (
            Bound::<Seq<u8>>::Excluded(low@),
            if self.prefix < 255 {
                Bound::<Seq<u8>>::Excluded(high@)
            } else {
                Bound::<Seq<u8>>::Unbounded
            },
        );
        let entries = match self.ds.range(Bound::Excluded(low.as_slice()), end) {
            Ok(entries) => entries,
            Err(e) => {
                return Err(Error::Database(e));
            },
        };
        let ghost fulls = entry_views(entries@);
        proof {
            assert forall|i: int| 0 <= i < fulls.len() implies is_listed(
                (#[trigger] fulls[i]).0,
                self.prefix,
            ) by {
                lemma_listed_is_a_range(fulls[i].0, self.prefix);
            }
        }
        let mut pairs: Vec<(Vec<u8>, Vec<u8>)> = Vec::new();
        let mut i: usize = 0;
        while i < entries.len()
            invariant
                i <= entries.len(),
                fulls == entry_views(entries@),
                is_range(self@.contents, span.0, span.1, fulls),
                span.0 == Bound::<Seq<u8>>::Excluded(scalar_key(self@.prefix)),
                span.1 == if self@.prefix < 255 {
                    Bound::<Seq<u8>>::Excluded(scalar_key((self@.prefix + 1) as u8))
                } else {
                    Bound::<Seq<u8>>::Unbounded
                },
                pairs.len() == i,
                forall|m: int|
                    0 <= m < fulls.len() ==> is_listed((#[trigger] fulls[m]).0, self.prefix),
                forall|m: int|
                    0 <= m < i ==> fulls[m].0 == sub_key(
                        self.prefix,
                        (#[trigger] entry_views(pairs@)[m]).0,
                    ) && fulls[m].1 == entry_views(pairs@)[m].1,
            decreases entries.len() - i,
        {
            let entry = &entries[i];
            proof {
                assert(is_listed(fulls[i as int].0, self.prefix));
            }
            let key = slice_to_vec(slice_subrange(entry.0.as_slice(), 1, entry.0.len()));
            let value = slice_to_vec(entry.1.as_slice());
            let ghost before = entry_views(pairs@);
            pairs.push((key, value));
            proof {
                let after = entry_views(pairs@);
                assert forall|m: int| 0 <= m < i + 1 implies fulls[m].0 == sub_key(
                    self.prefix,
                    (#[trigger] after[m]).0,
                ) && fulls[m].1 == after[m].1 by {
                    if m < i {
                        assert(after[m] == before[m]);
                    }
                }
            }
            i += 1;
        }
        proof {
            let out = entry_views(pairs@);
            assert forall|m: int, n: int| 0 <= m < n < out.len() implies lex_lt(
                (#[trigger] out[m]).0,
                (#[trigger] out[n]).0,
            ) by {
                lemma_sub_key_order(self.prefix, out[m].0, out[n].0);
            }
            assert forall|m: int| 0 <= m < out.len() implies {
                &&& (#[trigger] out[m]).0.len() > 0
                &&& self@.get(out[m].0) == Some(out[m].1)
            } by {}
            assert forall|full: Seq<u8>| #[trigger] self@.listed().contains(full) implies exists|
                m: int,
            | 0 <= m < out.len() && self@.full_key((#[trigger] out[m]).0) == full by {
                lemma_listed_is_a_range(full, self.prefix);
                let m = choose|m: int| 0 <= m < fulls.len() && (#[trigger] fulls[m]).0 == full;
                assert(self@.full_key(out[m].0) == full);
            }
        }
        Ok(pairs)
    }
}

/// Where a walk from the start of a map meets nothing, the map has no entry
/// for a walk to meet.
pub proof fn lemma_walk_ends(map: Stored)
    requires
        map.contents.dom().finite(),
        map.next_after(scalar_key(map.prefix)) is None,
    ensures
        forall|full: Seq<u8>| map.contents.contains_key(full) ==> !is_listed(full, map.prefix),
{
    let start = scalar_key(map.prefix);
    assert forall|full: Seq<u8>| map.contents.contains_key(full) implies !is_listed(
        full,
        map.prefix,
    ) by {
        if is_listed(full, map.prefix) {
            assert(precedes_at(start, full, 1));
            lemma_least_above_exists(map.contents, start, full);
            let least = choose|least: Seq<u8>| is_least_above(map.contents, start, least);
            if least != full {
                lemma_order_prefix(least, full);
                lemma_order_prefix(start, least);
            }
        }
    }
}

/// A walk meets the entries of its map in the order of their keys and
/// passes none: what it meets next is the first entry of the map after the
/// cursor, and where it meets nothing the map has no entry after the
/// cursor.
pub proof fn lemma_walk_in_order(map: Stored, cursor: Seq<u8>)
    requires
        map.contents.dom().finite(),
        has_prefix(cursor, map.prefix),
    ensures
        match map.next_after(cursor) {
            Some((full, value)) => {
                &&& lex_lt(cursor, full)
                &&& map.listed().contains(full)
                &&& map.contents[full] == value
                &&& forall|other: Seq<u8>|
                    map.listed().contains(other) && lex_lt(cursor, other) ==> other == full
                        || lex_lt(full, other)
            },
            None => forall|other: Seq<u8>| map.listed().contains(other) ==> !lex_lt(cursor, other),
        },
{
    match map.next_after(cursor) {
        Some((full, value)) => {
        },
        None => {
            assert forall|other: Seq<u8>| map.listed().contains(other) implies !lex_lt(
                cursor,
                other,
            ) by {
                if lex_lt(cursor, other) {
                    lemma_least_above_exists(map.contents, cursor, other);
                    let least = choose|least: Seq<u8>| is_least_above(map.contents, cursor, least);
                    lemma_order_prefix(cursor, least);
                    if least != other {
                        lemma_order_prefix(least, other);
                    }
                }
            }
        },
    }
}

} // verus!
