//! Per-method slots: a list of (method, value) pairs where the first pair for
//! a method is the one that counts.

use vstd::prelude::*;
use crate::http::{Method, MethodView};
use crate::text::{first_where, lemma_first_where_found, lemma_first_where_none, lemma_first_where_valid};

verus! {

/// The test that finds the slot of method `m`.
pub open spec fn slot_for<T>(m: MethodView) -> spec_fn((Method, T)) -> bool {
    |e: (Method, T)| e.0@ == m
}

/// The value kept for method `m`, if any.
pub open spec fn slot_value<T>(slots: Seq<(Method, T)>, m: MethodView) -> Option<T> {
    match first_where(slots, slot_for::<T>(m)) {
        Some(i) => Some(slots[i].1),
        None => None,
    }
}

/// No method has more than one slot.
pub open spec fn methods_distinct<T>(slots: Seq<(Method, T)>) -> bool {
    forall|i: int, j: int|
        #![trigger slots[i], slots[j]]
        0 <= i < j < slots.len() ==> slots[i].0@ != slots[j].0@
}

/// Replacing a slot by one for the same method keeps every method to one slot.
pub proof fn lemma_distinct_update<T>(slots: Seq<(Method, T)>, i: int, e: (Method, T))
    requires
        methods_distinct(slots),
        0 <= i < slots.len(),
        e.0@ == slots[i].0@,
    ensures
        methods_distinct(slots.update(i, e)),
{
    let s2 = slots.update(i, e);
    assert forall|a: int, b: int| 0 <= a < b < s2.len() implies s2[a].0@ != s2[b].0@ by {
        assert(slots[a].0@ != slots[b].0@);
    }
}

/// Adding a slot for a method that has none keeps every method to one slot.
pub proof fn lemma_distinct_push<T>(slots: Seq<(Method, T)>, e: (Method, T))
    requires
        methods_distinct(slots),
        first_where(slots, slot_for::<T>(e.0@)) is None,
    ensures
        methods_distinct(slots.push(e)),
{
    let s2 = slots.push(e);
    lemma_first_where_valid(slots, slot_for::<T>(e.0@));
    assert forall|a: int, b: int| 0 <= a < b < s2.len() implies s2[a].0@ != s2[b].0@ by {
        if b < slots.len() {
            assert(slots[a].0@ != slots[b].0@);
        } else {
            assert(!slot_for::<T>(e.0@)(slots[a]));
        }
    }
}

/// The index of the slot for `method`, or the length when there is none.
pub fn find_slot<T>(slots: &Vec<(Method, T)>, method: &Method) -> (r: usize)
    ensures
        r <= slots@.len(),
        r < slots@.len() ==> first_where(slots@, slot_for::<T>(method@)) == Some(r as int),
        r == slots@.len() ==> first_where(slots@, slot_for::<T>(method@)) is None,
{
    let ghost p = slot_for::<T>(method@);
    let mut i: usize = 0;
    while i < slots.len()
        invariant
            p == slot_for::<T>(method@),
            i <= slots@.len(),
            forall|j: int| 0 <= j < i ==> !p(#[trigger] slots@[j]),
        decreases slots@.len() - i,
    {
        if slots[i].0.same_as(method) {
            proof {
                lemma_first_where_found(slots@, p, i as int);
            }
            return i;
        }
        i = i + 1;
    }
    proof {
        lemma_first_where_none(slots@, p);
    }
    i
}

/// Replacing the value in the slot of a method leaves every other method's slot
/// where it was and the method's own slot at the same index.
pub proof fn lemma_slot_update<T>(slots: Seq<(Method, T)>, i: int, e: (Method, T), m: MethodView)
    requires
        first_where(slots, slot_for::<T>(e.0@)) == Some(i),
    ensures
        first_where(slots.update(i, e), slot_for::<T>(m)) == first_where(slots, slot_for::<T>(m)),
{
    let k = e.0@;
    let s2 = slots.update(i, e);
    let pk = slot_for::<T>(k);
    let pm = slot_for::<T>(m);
    lemma_first_where_valid(slots, pk);
    lemma_first_where_valid(slots, pm);
    if m == k {
        assert forall|j: int| 0 <= j < i implies !pm(#[trigger] s2[j]) by {
            assert(s2[j] == slots[j]);
        }
        lemma_first_where_found(s2, pm, i);
    } else {
        match first_where(slots, pm) {
            Some(j) => {
                assert(j != i);
                assert forall|l: int| 0 <= l < j implies !pm(#[trigger] s2[l]) by {
                    if l != i {
                        assert(s2[l] == slots[l]);
                    }
                }
                assert(s2[j] == slots[j]);
                lemma_first_where_found(s2, pm, j);
            },
            None => {
                assert forall|l: int| 0 <= l < s2.len() implies !pm(#[trigger] s2[l]) by {
                    if l != i {
                        assert(s2[l] == slots[l]);
                    }
                }
                lemma_first_where_none(s2, pm);
            },
        }
    }
}

/// Adding a slot for a method that has none leaves every other slot as it was.
pub proof fn lemma_slot_push<T>(slots: Seq<(Method, T)>, e: (Method, T), m: MethodView)
    requires
        first_where(slots, slot_for::<T>(e.0@)) is None,
    ensures
        first_where(slots.push(e), slot_for::<T>(m)) == (if m == e.0@ {
            Some(slots.len() as int)
        } else {
            first_where(slots, slot_for::<T>(m))
        }),
{
    let s2 = slots.push(e);
    let pm = slot_for::<T>(m);
    lemma_first_where_valid(slots, slot_for::<T>(e.0@));
    lemma_first_where_valid(slots, pm);
    if m == e.0@ {
        assert forall|j: int| 0 <= j < slots.len() implies !pm(#[trigger] s2[j]) by {
            assert(s2[j] == slots[j]);
        }
        lemma_first_where_found(s2, pm, slots.len() as int);
    } else {
        match first_where(slots, pm) {
            Some(j) => {
                assert forall|l: int| 0 <= l < j implies !pm(#[trigger] s2[l]) by {
                    assert(s2[l] == slots[l]);
                }
                assert(s2[j] == slots[j]);
                lemma_first_where_found(s2, pm, j);
            },
            None => {
                assert forall|l: int| 0 <= l < s2.len() implies !pm(#[trigger] s2[l]) by {
                    if l < slots.len() {
                        assert(s2[l] == slots[l]);
                    }
                }
                lemma_first_where_none(s2, pm);
            },
        }
    }
}

} // verus!
