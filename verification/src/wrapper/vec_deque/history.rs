//! The history of a deque: what a deque holds after pushes and pops at
//! either end, and why that is what a sequence holds that is taken for a
//! deque.

use vstd::prelude::*;
use crate::key::{
    has_prefix, index_key, lemma_index_key_injective, lemma_index_key_order, lemma_order_prefix,
    lemma_prefix_order, lemma_slot_index,
};
use crate::order::{lex_lt, precedes_at};
use crate::traits::byte_store::{
    entry_above, entry_below, lemma_entry_above_is,
    lemma_entry_below_is, lookup,
};
use crate::wrapper::vec_deque::{
    recovered_head, recovered_tail, slot_key, slot_keys, Stored, HEAD_START, TAIL_START,
};

verus! {

/// One step in the history of a deque.
pub enum Step {
    PushFront(Seq<u8>),
    PushBack(Seq<u8>),
    PopFront,
    PopBack,
}

/// A sequence after a history that takes it for a deque: a push adds at its
/// end, a pop takes from its end and leaves an empty sequence empty.
pub open spec fn deque_after(elements: Seq<Seq<u8>>, steps: Seq<Step>) -> Seq<Seq<u8>>
    decreases steps.len(),
{
    if steps.len() == 0 {
        elements
    } else {
        let before = deque_after(elements, steps.drop_last());
        match steps.last() {
            Step::PushFront(value) => seq![value] + before,
            Step::PushBack(value) => before.push(value),
            Step::PopFront => if before.len() == 0 {
                before
            } else {
                before.drop_first()
            },
            Step::PopBack => if before.len() == 0 {
                before
            } else {
                before.drop_last()
            },
        }
    }
}

/// The first of a sequence.
pub open spec fn first_of(elements: Seq<Seq<u8>>) -> Option<Seq<u8>> {
    if elements.len() == 0 {
        None
    } else {
        Some(elements.first())
    }
}

/// The last of a sequence.
pub open spec fn last_of(elements: Seq<Seq<u8>>) -> Option<Seq<u8>> {
    if elements.len() == 0 {
        None
    } else {
        Some(elements.last())
    }
}

impl Stored {
    /// The values of the elements, from the front to the back. It says what
    /// the deque holds where the deque is [`dense`](Stored::dense).
    pub open spec fn values(self) -> Seq<Seq<u8>> {
        Seq::new(self.len() as nat, |i: int| self.contents[self.slot_key(self.head + 1 + i)])
    }

    /// Every slot between the cursors is filled, and the store holds no other
    /// key under the prefix: the deque was never left with a gap.
    pub open spec fn dense(self) -> bool {
        &&& self.wf()
        &&& forall|i: int|
            self.head < i < self.tail ==> self.contents.contains_key(#[trigger] self.slot_key(i))
        &&& forall|key: Seq<u8>| #[trigger]
            self.contents.contains_key(key) && has_prefix(key, self.prefix) ==> exists|i: int|
                self.head < i < self.tail && key == self.slot_key(i)
    }

    /// The deque after one step of a history.
    pub open spec fn stepped(self, step: Step) -> Stored {
        match step {
            Step::PushFront(value) => self.pushed_front(value),
            Step::PushBack(value) => self.pushed_back(value),
            Step::PopFront => self.popped_front(),
            Step::PopBack => self.popped_back(),
        }
    }

    /// The deque after a history, every step of which succeeded.
    pub open spec fn ran(self, steps: Seq<Step>) -> Stored
        decreases steps.len(),
    {
        if steps.len() == 0 {
            self
        } else {
            self.ran(steps.drop_last()).stepped(steps.last())
        }
    }
}

/// Different slots of one deque have different keys.
pub proof fn lemma_slot_keys_differ(prefix: u8, first: int, second: int)
    requires
        0 <= first <= u64::MAX,
        0 <= second <= u64::MAX,
        first != second,
    ensures
        slot_key(prefix, first) != slot_key(prefix, second),
{
    if slot_key(prefix, first) == slot_key(prefix, second) {
        lemma_index_key_injective(prefix, first as u64, second as u64);
    }
}

/// A value that was pushed is found again at its end: reading there gives
/// it, and so does a pop at that end.
pub proof fn lemma_pushed_is_found(deque: Stored, value: Seq<u8>)
    requires
        deque.wf(),
    ensures
        deque.tail < u64::MAX ==> deque.pushed_back(value).back() == Some(value)
            && deque.pushed_back(value).get(deque.len()) == Some(value),
        deque.head > 0 ==> deque.pushed_front(value).front() == Some(value) && deque.pushed_front(
            value,
        ).get(0) == Some(value),
{
}

/// A deque changes nothing outside its prefix: a key that does not start
/// with the prefix reads the same after a push, a pop, or a clear.
pub proof fn lemma_other_keys_stay(deque: Stored, value: Seq<u8>, key: Seq<u8>)
    requires
        !has_prefix(key, deque.prefix),
    ensures
        lookup(deque.pushed_back(value).contents, key) == lookup(deque.contents, key),
        lookup(deque.pushed_front(value).contents, key) == lookup(deque.contents, key),
        lookup(deque.popped_back().contents, key) == lookup(deque.contents, key),
        lookup(deque.popped_front().contents, key) == lookup(deque.contents, key),
        lookup(deque.cleared().contents, key) == lookup(deque.contents, key),
{
}

/// Clearing is idempotent: a cleared deque is empty, and clearing it again
/// changes nothing.
pub proof fn lemma_clear_twice(deque: Stored)
    requires
        deque.wf(),
    ensures
        deque.cleared().wf(),
        deque.cleared().len() == 0,
        deque.cleared().cleared() == deque.cleared(),
{
    let once = deque.cleared();
    assert(slot_keys(once.prefix, once.head, once.tail) =~= Set::empty());
    assert(once.contents.remove_keys(Set::empty()) =~= once.contents);
}

/// Pushing at the back of a deque without a gap leaves no gap and adds the
/// value at the end.
pub proof fn lemma_push_back_dense(deque: Stored, value: Seq<u8>)
    requires
        deque.dense(),
        deque.tail < u64::MAX,
    ensures
        deque.pushed_back(value).dense(),
        deque.pushed_back(value).values() == deque.values().push(value),
{
    let after = deque.pushed_back(value);
    let new_key = deque.slot_key(deque.tail);
    assert forall|i: int| after.head < i < after.tail implies after.contents.contains_key(
        #[trigger] after.slot_key(i),
    ) by {
        if i < deque.tail {
            assert(deque.contents.contains_key(deque.slot_key(i)));
        }
    }
    assert forall|key: Seq<u8>| #[trigger]
        after.contents.contains_key(key) && has_prefix(key, after.prefix) implies exists|i: int|
        after.head < i < after.tail && key == after.slot_key(i) by {
        if key == new_key {
            assert(key == after.slot_key(deque.tail));
        } else {
            let i = choose|i: int| deque.head < i < deque.tail && key == deque.slot_key(i);
            assert(key == after.slot_key(i));
        }
    }
    assert forall|i: int| 0 <= i < after.len() implies after.values()[i] == deque.values().push(
        value,
    )[i] by {
        if i < deque.len() {
            lemma_slot_keys_differ(deque.prefix, deque.head + 1 + i, deque.tail);
        }
    }
}

/// Pushing at the front of a deque without a gap leaves no gap and adds the
/// value at the start.
pub proof fn lemma_push_front_dense(deque: Stored, value: Seq<u8>)
    requires
        deque.dense(),
        deque.head > 0,
    ensures
        deque.pushed_front(value).dense(),
        deque.pushed_front(value).values() == seq![value] + deque.values(),
{
    let after = deque.pushed_front(value);
    let new_key = deque.slot_key(deque.head);
    assert forall|i: int| after.head < i < after.tail implies after.contents.contains_key(
        #[trigger] after.slot_key(i),
    ) by {
        if i > deque.head {
            assert(deque.contents.contains_key(deque.slot_key(i)));
        }
    }
    assert forall|key: Seq<u8>| #[trigger]
        after.contents.contains_key(key) && has_prefix(key, after.prefix) implies exists|i: int|
        after.head < i < after.tail && key == after.slot_key(i) by {
        if key == new_key {
            assert(key == after.slot_key(deque.head));
        } else {
            let i = choose|i: int| deque.head < i < deque.tail && key == deque.slot_key(i);
            assert(key == after.slot_key(i));
        }
    }
    let target = seq![value] + deque.values();
    assert forall|i: int| 0 <= i < after.len() implies after.values()[i] == target[i] by {
        if i > 0 {
            lemma_slot_keys_differ(deque.prefix, deque.head + i, deque.head);
        }
    }
}

/// Popping at the back of a deque without a gap leaves no gap, returns the
/// last value and takes it off the end. An empty deque stays as it is.
pub proof fn lemma_pop_back_dense(deque: Stored)
    requires
        deque.dense(),
    ensures
        deque.popped_back().dense(),
        deque.back() == last_of(deque.values()),
        deque.popped_back().values() == if deque.len() == 0 {
            deque.values()
        } else {
            deque.values().drop_last()
        },
{
    if deque.len() > 0 {
        let after = deque.popped_back();
        assert forall|i: int| after.head < i < after.tail implies after.contents.contains_key(
            #[trigger] after.slot_key(i),
        ) by {
            assert(deque.contents.contains_key(deque.slot_key(i)));
            lemma_slot_keys_differ(deque.prefix, i, deque.tail - 1);
        }
        assert forall|key: Seq<u8>| #[trigger]
            after.contents.contains_key(key) && has_prefix(key, after.prefix) implies exists|
            i: int,
        | after.head < i < after.tail && key == after.slot_key(i) by {
            let i = choose|i: int| deque.head < i < deque.tail && key == deque.slot_key(i);
            assert(key == after.slot_key(i));
        }
        assert forall|i: int| 0 <= i < after.len() implies after.values()[i]
            == deque.values().drop_last()[i] by {
            lemma_slot_keys_differ(deque.prefix, deque.head + 1 + i, deque.tail - 1);
        }
    }
}

/// Popping at the front of a deque without a gap leaves no gap, returns the
/// first value and takes it off the start. An empty deque stays as it is.
pub proof fn lemma_pop_front_dense(deque: Stored)
    requires
        deque.dense(),
    ensures
        deque.popped_front().dense(),
        deque.front() == first_of(deque.values()),
        deque.popped_front().values() == if deque.len() == 0 {
            deque.values()
        } else {
            deque.values().drop_first()
        },
{
    if deque.len() > 0 {
        let after = deque.popped_front();
        assert forall|i: int| after.head < i < after.tail implies after.contents.contains_key(
            #[trigger] after.slot_key(i),
        ) by {
            assert(deque.contents.contains_key(deque.slot_key(i)));
            lemma_slot_keys_differ(deque.prefix, i, deque.head + 1);
        }
        assert forall|key: Seq<u8>| #[trigger]
            after.contents.contains_key(key) && has_prefix(key, after.prefix) implies exists|
            i: int,
        | after.head < i < after.tail && key == after.slot_key(i) by {
            let i = choose|i: int| deque.head < i < deque.tail && key == deque.slot_key(i);
            assert(key == after.slot_key(i));
        }
        assert forall|i: int| 0 <= i < after.len() implies after.values()[i]
            == deque.values().drop_first()[i] by {
            lemma_slot_keys_differ(deque.prefix, after.head + 1 + i, deque.head + 1);
        }
    }
}

/// A deque in a store behaves as a deque. From a deque without a gap, after
/// any history of pushes and pops at either end that stays within the index
/// space, the cursors still bound a window, the deque has no gap and holds
/// what a sequence holds after the same history; so its length is never
/// negative, and a pop returns the element at its end.
pub proof fn lemma_deque_is_deque(deque: Stored, steps: Seq<Step>)
    requires
        deque.dense(),
        steps.len() <= deque.head,
        deque.tail + steps.len() <= u64::MAX,
    ensures
        deque.ran(steps).dense(),
        deque.ran(steps).len() >= 0,
        deque.ran(steps).values() == deque_after(deque.values(), steps),
        deque.ran(steps).front() == first_of(deque_after(deque.values(), steps)),
        deque.ran(steps).back() == last_of(deque_after(deque.values(), steps)),
        deque.head - steps.len() <= deque.ran(steps).head,
        deque.ran(steps).tail <= deque.tail + steps.len(),
    decreases steps.len(),
{
    if steps.len() > 0 {
        lemma_deque_is_deque(deque, steps.drop_last());
        let before = deque.ran(steps.drop_last());
        match steps.last() {
            Step::PushFront(value) => {
                lemma_push_front_dense(before, value);
            },
            Step::PushBack(value) => {
                lemma_push_back_dense(before, value);
            },
            Step::PopFront => {
                lemma_pop_front_dense(before);
            },
            Step::PopBack => {
                lemma_pop_back_dense(before);
            },
        }
    }
    lemma_pop_front_dense(deque.ran(steps));
    lemma_pop_back_dense(deque.ran(steps));
}

/// A deque without a gap is found again: the cursors recovered from its
/// store are its cursors, or those of a new deque where it is empty.
pub proof fn lemma_dense_is_recovered(deque: Stored)
    requires
        deque.dense(),
    ensures
        deque.len() > 0 ==> recovered_head(deque.contents, deque.prefix) == deque.head
            && recovered_tail(deque.contents, deque.prefix) == deque.tail,
        deque.len() == 0 ==> recovered_head(deque.contents, deque.prefix) == HEAD_START
            && recovered_tail(deque.contents, deque.prefix) == TAIL_START,
{
    let high = index_key(deque.prefix, u64::MAX);
    let low = index_key(deque.prefix, 0);
    if deque.len() > 0 {
        let last = deque.slot_key(deque.tail - 1);
        let first = deque.slot_key(deque.head + 1);
        lemma_index_key_order(deque.prefix, (deque.tail - 1) as u64, u64::MAX);
        lemma_index_key_order(deque.prefix, 0, (deque.head + 1) as u64);
        assert forall|other: Seq<u8>|
            deque.contents.contains_key(other) && lex_lt(other, high) implies other == last
            || lex_lt(other, last) by {
            if has_prefix(other, deque.prefix) {
                let i = choose|i: int| deque.head < i < deque.tail && other == deque.slot_key(i);
                lemma_index_key_order(deque.prefix, i as u64, (deque.tail - 1) as u64);
            } else if other.len() == 0 {
                assert(precedes_at(other, last, 0));
            } else {
                lemma_order_prefix(other, high);
                lemma_prefix_order(other, last);
            }
        }
        lemma_entry_below_is(deque.contents, high, last);
        assert(last.subrange(0, 9) =~= last);
        lemma_slot_index(last, deque.prefix, (deque.tail - 1) as u64);
        assert forall|other: Seq<u8>|
            deque.contents.contains_key(other) && lex_lt(low, other) implies other == first
            || lex_lt(first, other) by {
            lemma_order_prefix(low, other);
            if has_prefix(other, deque.prefix) {
                let i = choose|i: int| deque.head < i < deque.tail && other == deque.slot_key(i);
                lemma_index_key_order(deque.prefix, (deque.head + 1) as u64, i as u64);
            } else {
                lemma_prefix_order(first, other);
            }
        }
        lemma_entry_above_is(deque.contents, low, first);
        assert(first.subrange(0, 9) =~= first);
        lemma_slot_index(first, deque.prefix, (deque.head + 1) as u64);
    } else {
        match entry_below(deque.contents, high) {
            Some((key, _)) => {
            },
            None => {},
        }
        match entry_above(deque.contents, low) {
            Some((key, _)) => {
            },
            None => {},
        }
    }
}

} // verus!
