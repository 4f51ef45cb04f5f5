//! Laws of the container, stated and proved once and for all.
//!
//! Each law relates the contracts of the container's operations: a writer
//! (`set`, `reset`, `flip`) describes its result as a sequence of bits, and a
//! reader (`get`, `any`, `all`, `none`) is exact about that sequence, so the
//! laws hold of every container and every position.

use crate::bitset::Bitset;
use crate::word::Word;
use vstd::prelude::*;

verus! {

/// Reading a position right after writing it yields the written value: after
/// `set(pos, value)` the container's view is the old view updated at `pos`,
/// and `get(pos)` returns exactly `value`, whatever the other bits hold.
pub proof fn lemma_set_then_get<const N: usize, T: Word>(
    pre: Bitset<N, T>,
    post: Bitset<N, T>,
    pos: int,
    value: bool,
)
    requires
        0 <= pos < pre@.len(),
        post@ == pre@.update(pos, value),
    ensures
        post@[pos] == value,
{
}

/// Writing one position never changes the observable value of any other
/// position: after `set(pos, value)`, `get(other)` returns what it returned
/// before, for every `other != pos`.
pub proof fn lemma_set_preserves_others<const N: usize, T: Word>(
    pre: Bitset<N, T>,
    post: Bitset<N, T>,
    pos: int,
    value: bool,
    other: int,
)
    requires
        0 <= pos < pre@.len(),
        0 <= other < pre@.len(),
        other != pos,
        post@ == pre@.update(pos, value),
    ensures
        post@[other] == pre@[other],
{
}

/// A non-empty container whose bits are all false — the state `reset`
/// establishes — satisfies `none` and neither `any` nor `all`.
pub proof fn lemma_cleared_aggregates<const N: usize, T: Word>(b: Bitset<N, T>)
    requires
        b@.len() > 0,
        forall|i: int| 0 <= i < b@.len() ==> !b@[i],
    ensures
        b.spec_none(),
        !b.spec_any(),
        !b.spec_all(),
{
    assert(!b@[0]);
}

/// Flipping twice restores the starting state: if each of two flips toggles
/// every bit, the final view equals the initial one.
pub proof fn lemma_flip_involution<const N: usize, T: Word>(
    b0: Bitset<N, T>,
    b1: Bitset<N, T>,
    b2: Bitset<N, T>,
)
    requires
        b1@.len() == b0@.len(),
        forall|i: int| 0 <= i < b0@.len() ==> b1@[i] == !b0@[i],
        b2@.len() == b1@.len(),
        forall|i: int| 0 <= i < b1@.len() ==> b2@[i] == !b1@[i],
    ensures
        b2@ == b0@,
{
    assert(b2@ =~= b0@);
}

/// The aggregate predicates agree with the per-position reads: `all` holds
/// exactly when `get` is true at every position, `none` exactly when it is
/// true at no position, and `any` is the negation of `none`.
pub proof fn lemma_aggregate_definitions<const N: usize, T: Word>(b: Bitset<N, T>)
    ensures
        b.spec_all() == (forall|pos: int| 0 <= pos < b@.len() ==> b@[pos]),
        b.spec_none() == (forall|pos: int| 0 <= pos < b@.len() ==> !b@[pos]),
        b.spec_any() == !b.spec_none(),
{
}

} // verus!
