//! The history of a list: what a list holds after pushes and pops, and why
//! that is what a stack holds.

use vstd::prelude::*;
use crate::key::{
    has_prefix, index_key, lemma_index_key_injective, lemma_index_key_order, lemma_order_prefix,
    lemma_prefix_order, lemma_slot_index,
};
use crate::order::lex_lt;
use crate::traits::byte_store::{entry_below, lemma_entry_below_is, lookup};
use crate::wrapper::vec::{recovered_len, slot_key, slot_keys, Stored};

verus! {

/// One step in the history of a list.
pub enum Step {
    Push(Seq<u8>),
    Pop,
}

/// A stack after a history: a push adds on top, a pop takes the top off and
/// leaves an empty stack empty.
pub open spec fn stack_after(stack: Seq<Seq<u8>>, steps: Seq<Step>) -> Seq<Seq<u8>>
    decreases steps.len(),
{
    if steps.len() == 0 {
        stack
    } else {
        let before = stack_after(stack, steps.drop_last());
        match steps.last() {
            Step::Push(value) => before.push(value),
            Step::Pop => if before.len() == 0 {
                before
            } else {
                before.drop_last()
            },
        }
    }
}

/// The top of a stack.
pub open spec fn top(stack: Seq<Seq<u8>>) -> Option<Seq<u8>> {
    if stack.len() == 0 {
        None
    } else {
        Some(stack.last())
    }
}

/// The number of pushes in a history.
pub open spec fn pushes(steps: Seq<Step>) -> nat
    decreases steps.len(),
{
    if steps.len() == 0 {
        0
    } else {
        pushes(steps.drop_last()) + if steps.last() is Push {
            1nat
        } else {
            0nat
        }
    }
}

/// The number of pops in a history.
pub open spec fn pops(steps: Seq<Step>) -> nat
    decreases steps.len(),
{
    if steps.len() == 0 {
        0
    } else {
        pops(steps.drop_last()) + if steps.last() is Pop {
            1nat
        } else {
            0nat
        }
    }
}

/// No pop of the history meets an empty stack of `len` elements at first.
pub open spec fn pops_find_elements(len: nat, steps: Seq<Step>) -> bool
    decreases steps.len(),
{
    steps.len() > 0 ==> {
        &&& pops_find_elements(len, steps.drop_last())
        &&& steps.last() is Pop ==> len + pushes(steps.drop_last()) > pops(steps.drop_last())
    }
}

impl Stored {
    /// The values in the slots below the counter, in order. It says what the
    /// list holds where the list is [`dense`](Stored::dense).
    pub open spec fn values(self) -> Seq<Seq<u8>> {
        Seq::new(self.len, |i: int| self.contents[self.slot_key(i)])
    }

    /// The list after one step of a history.
    pub open spec fn stepped(self, step: Step) -> Stored {
        match step {
            Step::Push(value) => self.pushed(value),
            Step::Pop => self.popped(),
        }
    }

    /// The list after a history, every step of which succeeded.
    pub open spec fn ran(self, steps: Seq<Step>) -> Stored
        decreases steps.len(),
    {
        if steps.len() == 0 {
            self
        } else {
            self.ran(steps.drop_last()).stepped(steps.last())
        }
    }

    /// Every slot below the counter is filled, and the store holds no other
    /// key under the prefix: the list was never left with a gap.
    pub open spec fn dense(self) -> bool {
        &&& self.len <= usize::MAX
        &&& forall|i: int|
            0 <= i < self.len ==> self.contents.contains_key(#[trigger] self.slot_key(i))
        &&& forall|key: Seq<u8>| #[trigger]
            self.contents.contains_key(key) && has_prefix(key, self.prefix) ==> exists|i: int|
                0 <= i < self.len && key == self.slot_key(i)
    }
}

/// Different slots of one list have different keys.
pub proof fn lemma_slot_keys_differ(prefix: u8, first: int, second: int)
    requires
        0 <= first <= u64::MAX,
        0 <= second <= u64::MAX,
        first != second,
    ensures
        slot_key(prefix, first) != slot_key(prefix, second),
{
    if slot_key(prefix, first) == slot_key(prefix, second) {
        lemma_index_key_injective(prefix, first as u64, second as u64);
    }
}

/// A value that was pushed is the last of the list: reading its slot gives
/// it, and so does a pop.
pub proof fn lemma_pushed_is_last(list: Stored, value: Seq<u8>)
    requires
        list.len < usize::MAX,
    ensures
        list.pushed(value).get(list.len as int) == Some(value),
        list.pushed(value).last() == Some(value),
        list.pushed(value).popped().len == list.len,
{
}

/// A list changes nothing outside its prefix: a key that does not start
/// with the prefix reads the same after a push, a pop, or a clear.
pub proof fn lemma_other_keys_stay(list: Stored, value: Seq<u8>, key: Seq<u8>)
    requires
        !has_prefix(key, list.prefix),
    ensures
        lookup(list.pushed(value).contents, key) == lookup(list.contents, key),
        lookup(list.popped().contents, key) == lookup(list.contents, key),
        lookup(list.cleared().contents, key) == lookup(list.contents, key),
{
}

/// Clearing is idempotent: a cleared list is empty, and clearing it again
/// changes nothing.
pub proof fn lemma_clear_twice(list: Stored)
    ensures
        list.cleared().len == 0,
        list.cleared().cleared() == list.cleared(),
{
    let once = list.cleared();
    assert(slot_keys(once.prefix, 0, 0) =~= Set::empty());
    assert(once.contents.remove_keys(Set::empty()) =~= once.contents);
}

/// Pushing onto a list without a gap leaves no gap and adds the value at the
/// end.
pub proof fn lemma_push_dense(list: Stored, value: Seq<u8>)
    requires
        list.dense(),
        list.len < usize::MAX,
    ensures
        list.pushed(value).dense(),
        list.pushed(value).values() == list.values().push(value),
{
    let after = list.pushed(value);
    let new_key = list.slot_key(list.len as int);
    assert forall|i: int| 0 <= i < after.len implies after.contents.contains_key(
        #[trigger] after.slot_key(i),
    ) by {
        if i < list.len {
            assert(list.contents.contains_key(list.slot_key(i)));
        }
    }
    assert forall|key: Seq<u8>| #[trigger]
        after.contents.contains_key(key) && has_prefix(key, after.prefix) implies exists|i: int|
        0 <= i < after.len && key == after.slot_key(i) by {
        if key == new_key {
            assert(key == after.slot_key(list.len as int));
        } else {
            let i = choose|i: int| 0 <= i < list.len && key == list.slot_key(i);
            assert(key == after.slot_key(i));
        }
    }
    assert forall|i: int| 0 <= i < after.len implies after.values()[i] == list.values().push(
        value,
    )[i] by {
        if i < list.len {
            lemma_slot_keys_differ(list.prefix, i, list.len as int);
        }
    }
}

/// Popping from a list without a gap leaves no gap, returns the last value
/// and takes it off the end. An empty list stays as it is.
pub proof fn lemma_pop_dense(list: Stored)
    requires
        list.dense(),
    ensures
        list.popped().dense(),
        list.last() == top(list.values()),
        list.popped().values() == if list.len == 0 {
            list.values()
        } else {
            list.values().drop_last()
        },
{
    if list.len > 0 {
        let after = list.popped();
        assert forall|i: int| 0 <= i < after.len implies after.contents.contains_key(
            #[trigger] after.slot_key(i),
        ) by {
            assert(list.contents.contains_key(list.slot_key(i)));
            lemma_slot_keys_differ(list.prefix, i, list.len - 1);
        }
        assert forall|key: Seq<u8>| #[trigger]
            after.contents.contains_key(key) && has_prefix(key, after.prefix) implies exists|
            i: int,
        | 0 <= i < after.len && key == after.slot_key(i) by {
            let i = choose|i: int| 0 <= i < list.len && key == list.slot_key(i);
            assert(key == after.slot_key(i));
        }
        assert forall|i: int| 0 <= i < after.len implies after.values()[i]
            == list.values().drop_last()[i] by {
            lemma_slot_keys_differ(list.prefix, i, list.len - 1);
        }
    }
}

/// A list behaves as a stack. From a list without a gap, after any history
/// of pushes and pops that does not overflow the counter, the list has no
/// gap and holds what a stack holds after the same history; so `len` is the
/// height of that stack, and a pop returns what was pushed last and not yet
/// popped.
pub proof fn lemma_list_is_stack(list: Stored, steps: Seq<Step>)
    requires
        list.dense(),
        list.len + steps.len() <= usize::MAX,
    ensures
        list.ran(steps).dense(),
        list.ran(steps).values() == stack_after(list.values(), steps),
        list.ran(steps).len == stack_after(list.values(), steps).len(),
        list.ran(steps).len <= list.len + steps.len(),
        list.ran(steps).last() == top(stack_after(list.values(), steps)),
    decreases steps.len(),
{
    if steps.len() > 0 {
        lemma_list_is_stack(list, steps.drop_last());
        let before = list.ran(steps.drop_last());
        match steps.last() {
            Step::Push(value) => {
                lemma_push_dense(before, value);
            },
            Step::Pop => {
                lemma_pop_dense(before);
            },
        }
    }
    lemma_pop_dense(list.ran(steps));
}

/// The length after a history is the length before, plus the pushes, minus
/// the pops, where no pop met an empty list and the counter did not
/// overflow.
pub proof fn lemma_len_counts(list: Stored, steps: Seq<Step>)
    requires
        list.len + steps.len() <= usize::MAX,
        pops_find_elements(list.len, steps),
    ensures
        list.ran(steps).len == list.len + pushes(steps) - pops(steps),
        pushes(steps) <= steps.len(),
    decreases steps.len(),
{
    if steps.len() > 0 {
        lemma_len_counts(list, steps.drop_last());
    }
}

/// A list without a gap is found again: the counter recovered from its
/// store is its length.
pub proof fn lemma_dense_is_recovered(list: Stored)
    requires
        list.dense(),
    ensures
        recovered_len(list.contents, list.prefix) == list.len,
{
    let bound = index_key(list.prefix, usize::MAX as u64);
    if list.len > 0 {
        let last = list.slot_key(list.len - 1);
        lemma_index_key_order(list.prefix, (list.len - 1) as u64, usize::MAX as u64);
        assert forall|other: Seq<u8>|
            list.contents.contains_key(other) && lex_lt(other, bound) implies other == last
            || lex_lt(other, last) by {
            if has_prefix(other, list.prefix) {
                let i = choose|i: int| 0 <= i < list.len && other == list.slot_key(i);
                lemma_index_key_order(list.prefix, i as u64, (list.len - 1) as u64);
            } else if other.len() == 0 {
                assert(crate::order::precedes_at(other, last, 0));
            } else {
                lemma_order_prefix(other, bound);
                lemma_prefix_order(other, last);
            }
        }
        lemma_entry_below_is(list.contents, bound, last);
        assert(last.subrange(0, 9) =~= last);
        lemma_slot_index(last, list.prefix, (list.len - 1) as u64);
    } else {
        match entry_below(list.contents, bound) {
            Some((key, _)) => {
            },
            None => {},
        }
    }
}

} // verus!
