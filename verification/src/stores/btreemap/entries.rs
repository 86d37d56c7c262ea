//! Entries sorted by key, and the map they stand for.

use vstd::prelude::*;
use crate::order::{lemma_lex_irreflexive, lemma_lex_transitive, lex_lt};
use crate::traits::byte_store::Contents;

verus! {

/// The key of the entry at `i`.
pub open spec fn key_at(entries: Seq<(Vec<u8>, Vec<u8>)>, i: int) -> Seq<u8> {
    entries[i].0@
}

/// The value of the entry at `i`.
pub open spec fn val_at(entries: Seq<(Vec<u8>, Vec<u8>)>, i: int) -> Seq<u8> {
    entries[i].1@
}

/// The keys of the entries increase strictly.
pub open spec fn sorted(entries: Seq<(Vec<u8>, Vec<u8>)>) -> bool {
    forall|i: int, j: int|
        0 <= i < j < entries.len() ==> lex_lt(
            #[trigger] key_at(entries, i),
            #[trigger] key_at(entries, j),
        )
}

/// The map that a sequence of entries stands for.
pub open spec fn as_contents(entries: Seq<(Vec<u8>, Vec<u8>)>) -> Contents
    decreases entries.len(),
{
    if entries.len() == 0 {
        Map::empty()
    } else {
        as_contents(entries.drop_last()).insert(entries.last().0@, entries.last().1@)
    }
}

/// Some entry has the key `key`.
pub open spec fn has_key(entries: Seq<(Vec<u8>, Vec<u8>)>, key: Seq<u8>) -> bool {
    exists|i: int| 0 <= i < entries.len() && key_at(entries, i) == key
}

/// The map of any entries has finitely many keys.
pub proof fn lemma_as_contents_finite(entries: Seq<(Vec<u8>, Vec<u8>)>)
    ensures
        as_contents(entries).dom().finite(),
    decreases entries.len(),
{
    if entries.len() > 0 {
        lemma_as_contents_finite(entries.drop_last());
    }
}

/// The map of sorted entries has exactly their keys, each with its value.
pub proof fn lemma_as_contents(entries: Seq<(Vec<u8>, Vec<u8>)>)
    requires
        sorted(entries),
    ensures
        forall|key: Seq<u8>| #[trigger]
            as_contents(entries).contains_key(key) <==> has_key(entries, key),
        forall|i: int|
            0 <= i < entries.len() ==> as_contents(entries)[#[trigger] key_at(entries, i)]
                == val_at(entries, i),
    decreases entries.len(),
{
    if entries.len() > 0 {
        let front = entries.drop_last();
        let last = entries.len() - 1;
        assert forall|i: int, j: int| 0 <= i < j < front.len() implies lex_lt(
            #[trigger] key_at(front, i),
            #[trigger] key_at(front, j),
        ) by {
            assert(key_at(front, i) == key_at(entries, i));
            assert(key_at(front, j) == key_at(entries, j));
        }
        lemma_as_contents(front);
        assert forall|key: Seq<u8>| #[trigger]
            as_contents(entries).contains_key(key) <==> has_key(entries, key) by {
            assert(key_at(entries, last) == entries.last().0@);
            assert(as_contents(entries) == as_contents(front).insert(
                entries.last().0@,
                entries.last().1@,
            ));
            if has_key(front, key) {
                let i = choose|i: int| 0 <= i < front.len() && key_at(front, i) == key;
                assert(key_at(entries, i) == key);
            }
            if has_key(entries, key) {
                let i = choose|i: int| 0 <= i < entries.len() && key_at(entries, i) == key;
                if i < last {
                    assert(key_at(front, i) == key);
                }
            }
        }
        assert forall|i: int| 0 <= i < entries.len() implies as_contents(entries)[#[trigger] key_at(
            entries,
            i,
        )] == val_at(entries, i) by {
            if i < last {
                assert(key_at(front, i) == key_at(entries, i));
                assert(lex_lt(key_at(entries, i), key_at(entries, last)));
                lemma_lex_irreflexive(key_at(entries, i));
            }
        }
    }
}

/// Putting an entry where its key belongs keeps the entries sorted and puts
/// its value under its key.
pub proof fn lemma_insert_entry(
    entries: Seq<(Vec<u8>, Vec<u8>)>,
    at: int,
    entry: (Vec<u8>, Vec<u8>),
)
    requires
        sorted(entries),
        0 <= at <= entries.len(),
        forall|j: int| 0 <= j < at ==> lex_lt(#[trigger] key_at(entries, j), entry.0@),
        forall|j: int| at <= j < entries.len() ==> lex_lt(entry.0@, #[trigger] key_at(entries, j)),
    ensures
        sorted(entries.insert(at, entry)),
        as_contents(entries.insert(at, entry)) == as_contents(entries).insert(entry.0@, entry.1@),
{
    let grown = entries.insert(at, entry);
    assert forall|i: int, j: int| 0 <= i < j < grown.len() implies lex_lt(
        #[trigger] key_at(grown, i),
        #[trigger] key_at(grown, j),
    ) by {
        if j < at {
            assert(key_at(grown, i) == key_at(entries, i));
            assert(key_at(grown, j) == key_at(entries, j));
        } else if j == at {
            assert(key_at(grown, i) == key_at(entries, i));
        } else if i < at {
            assert(key_at(grown, i) == key_at(entries, i));
            assert(key_at(grown, j) == key_at(entries, j - 1));
            lemma_lex_transitive(key_at(entries, i), entry.0@, key_at(entries, j - 1));
        } else if i == at {
            assert(key_at(grown, j) == key_at(entries, j - 1));
        } else {
            assert(key_at(grown, i) == key_at(entries, i - 1));
        }
    }
    lemma_as_contents(entries);
    lemma_as_contents(grown);
    let target = as_contents(entries).insert(entry.0@, entry.1@);
    assert forall|key: Seq<u8>| as_contents(grown).contains_key(key) <==> target.contains_key(
        key,
    ) by {
        if has_key(grown, key) {
            let i = choose|i: int| 0 <= i < grown.len() && key_at(grown, i) == key;
            if i < at {
                assert(key_at(entries, i) == key);
            } else if i > at {
                assert(key_at(entries, i - 1) == key);
            }
        }
        if has_key(entries, key) {
            let i = choose|i: int| 0 <= i < entries.len() && key_at(entries, i) == key;
            if i < at {
                assert(key_at(grown, i) == key);
            } else {
                assert(key_at(grown, i + 1) == key);
            }
        }
        if key == entry.0@ {
            assert(key_at(grown, at) == key);
        }
    }
    assert forall|key: Seq<u8>| as_contents(grown).contains_key(key) implies as_contents(grown)[key]
        == target[key] by {
        let i = choose|i: int| 0 <= i < grown.len() && key_at(grown, i) == key;
        if i < at {
            assert(key_at(entries, i) == key);
            lemma_lex_irreflexive(key);
        } else if i > at {
            assert(key_at(entries, i - 1) == key);
            lemma_lex_irreflexive(key);
        }
    }
}

/// Taking an entry out keeps the entries sorted and removes its key.
pub proof fn lemma_remove_entry(entries: Seq<(Vec<u8>, Vec<u8>)>, at: int)
    requires
        sorted(entries),
        0 <= at < entries.len(),
    ensures
        sorted(entries.remove(at)),
        as_contents(entries.remove(at)) == as_contents(entries).remove(key_at(entries, at)),
        forall|j: int| 0 <= j < at ==> key_at(entries.remove(at), j) == key_at(entries, j),
        forall|j: int|
            at <= j < entries.len() - 1 ==> key_at(entries.remove(at), j) == key_at(entries, j + 1),
{
    let shrunk = entries.remove(at);
    let gone = key_at(entries, at);
    assert forall|i: int, j: int| 0 <= i < j < shrunk.len() implies lex_lt(
        #[trigger] key_at(shrunk, i),
        #[trigger] key_at(shrunk, j),
    ) by {
        let from_i = if i < at { i } else { i + 1 };
        let from_j = if j < at { j } else { j + 1 };
        assert(key_at(shrunk, i) == key_at(entries, from_i));
        assert(key_at(shrunk, j) == key_at(entries, from_j));
    }
    lemma_as_contents(entries);
    lemma_as_contents(shrunk);
    let target = as_contents(entries).remove(gone);
    assert forall|key: Seq<u8>| as_contents(shrunk).contains_key(key) <==> target.contains_key(
        key,
    ) by {
        if has_key(shrunk, key) {
            let i = choose|i: int| 0 <= i < shrunk.len() && key_at(shrunk, i) == key;
            let from = if i < at { i } else { i + 1 };
            assert(key_at(entries, from) == key);
            lemma_lex_irreflexive(key);
        }
        if has_key(entries, key) && key != gone {
            let i = choose|i: int| 0 <= i < entries.len() && key_at(entries, i) == key;
            if i < at {
                assert(key_at(shrunk, i) == key);
            } else {
                assert(key_at(shrunk, i - 1) == key);
            }
        }
    }
    assert forall|key: Seq<u8>| as_contents(shrunk).contains_key(key) implies as_contents(
        shrunk,
    )[key] == target[key] by {
        let i = choose|i: int| 0 <= i < shrunk.len() && key_at(shrunk, i) == key;
        let from = if i < at { i } else { i + 1 };
        assert(key_at(entries, from) == key);
    }
}

/// Entry `m` of `found` is a copy of the entry of `entries` at `from[m]`.
pub open spec fn picked(
    entries: Seq<(Vec<u8>, Vec<u8>)>,
    found: Seq<(Vec<u8>, Vec<u8>)>,
    from: Seq<int>,
    m: int,
) -> bool {
    &&& 0 <= from[m] < entries.len()
    &&& found[m].0@ == key_at(entries, from[m])
    &&& found[m].1@ == val_at(entries, from[m])
}

} // verus!
