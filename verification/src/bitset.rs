//! A fixed-capacity sequence of bits packed into an array of words.
//!
//! A [`Bitset`] owns exactly `N` words of a [`Word`] type and addresses
//! `N * T::spec_width()` bit positions. Its view is the sequence of those
//! bits, lowest position first; every contract is stated over that view.

use crate::word::Word;
use vstd::prelude::*;

verus! {

/// Position `i` of a container of `n` words of width `w` decomposes into a
/// word index `i / w` and a bit offset `i % w`.
proof fn lemma_split(i: int, w: int, n: int)
    by (nonlinear_arith)
    requires
        0 <= i < n * w,
        0 < w,
    ensures
        0 <= i / w < n,
        0 <= i % w < w,
        i == (i / w) * w + i % w,
{
}

/// A word index `k` and a bit offset `b` compose into the bit position
/// `k * w + b`, and the decomposition of that position gives back `k` and `b`.
proof fn lemma_compose(k: int, b: int, w: int, n: int)
    by (nonlinear_arith)
    requires
        0 <= k < n,
        0 <= b < w,
    ensures
        0 <= k * w + b < n * w,
        (k * w + b) / w == k,
        (k * w + b) % w == b,
{
}

/// A fixed-sized sequence of `N * T::spec_width()` bits, stored as `N` words
/// of type `T`.
///
/// All bits start out false; `set` writes one bit, `get` reads one, and the
/// aggregate operations (`any`, `all`, `none`, `flip`, `reset`) scan or
/// rewrite the whole word array.
///
/// Bit positions at or beyond the bit length lie outside the contracts of
/// `set`, `get` and `get_bit`. An unverified caller that passes one anyway is
/// stopped deterministically by the bounds check of the underlying array;
/// no bit of the container changes.
#[derive(Debug)]
pub struct Bitset<const N: usize, T> {
    data: [T; N],
}

impl<const N: usize, T: Word> View for Bitset<N, T> {
    type V = Seq<bool>;

    open spec fn view(&self) -> Seq<bool> {
        Seq::new(self.spec_bit_len(), |i: int| self.bit_at(i))
    }
}

impl<const N: usize, T: Word> Bitset<N, T> {
    /// The underlying words, lowest bit positions first.
    pub closed spec fn words(self) -> Seq<T> {
        self.data@
    }

    /// The number of addressable bit positions.
    pub open spec fn spec_bit_len(self) -> nat {
        self.words().len() * T::spec_width()
    }

    /// The bit stored at position `i`.
    pub open spec fn bit_at(self, i: int) -> bool {
        self.words()[i / T::spec_width() as int].spec_bit(i % T::spec_width() as int)
    }

    /// Whether at least one bit is true.
    pub open spec fn spec_any(self) -> bool {
        exists|i: int| 0 <= i < self@.len() && self@[i]
    }

    /// Whether every bit is true.
    pub open spec fn spec_all(self) -> bool {
        forall|i: int| 0 <= i < self@.len() ==> self@[i]
    }

    /// Whether no bit is true.
    pub open spec fn spec_none(self) -> bool {
        forall|i: int| 0 <= i < self@.len() ==> !self@[i]
    }

    /// A container with all bits false.
    pub fn new() -> (r: Self)
        ensures
            r@.len() == (N as nat) * T::spec_width(),
            forall|i: int| 0 <= i < r@.len() ==> !r@[i],
    {
        let z = T::zero();
        let r = Bitset { data: [z; N] };
        proof {
            T::lemma_width();
            assert forall|i: int| 0 <= i < r@.len() implies !r@[i] by {
                lemma_split(i, T::spec_width() as int, N as int);
            }
        }
        r
    }

    /// The number of bits of one underlying word.
    pub fn bit_size() -> (r: usize)
        ensures
            r == T::spec_width(),
    {
        T::word_bits()
    }

    /// The word index and bit offset of the bit at position `pos`.
    fn index_offset(&self, pos: usize) -> (r: (usize, usize))
        requires
            pos < self@.len(),
        ensures
            r.0 < N,
            r.1 < T::spec_width(),
            r.0 == pos as int / T::spec_width() as int,
            r.1 == pos as int % T::spec_width() as int,
    {
        proof {
            T::lemma_width();
            lemma_split(pos as int, T::spec_width() as int, N as int);
        }
        let width = T::word_bits();
        let index = pos / width;
        let offset = pos % width;
        (index, offset)
    }

    /// Set all bits to false.
    pub fn reset(&mut self)
        ensures
            final(self)@.len() == old(self)@.len(),
            forall|i: int| 0 <= i < final(self)@.len() ==> !final(self)@[i],
    {
        let z = T::zero();
        let mut k: usize = 0;
        while k < N
            invariant
                k <= N,
                forall|b: int| 0 <= b < T::spec_width() ==> !z.spec_bit(b),
                forall|j: int| 0 <= j < k ==> self.data@[j] == z,
            decreases N - k,
        {
            self.data[k] = z;
            k = k + 1;
        }
        proof {
            T::lemma_width();
            assert forall|i: int| 0 <= i < self@.len() implies !self@[i] by {
                lemma_split(i, T::spec_width() as int, N as int);
            }
        }
    }

    /// Write `value` into the bit at position `pos`, leaving every other bit
    /// unchanged.
    pub fn set(&mut self, pos: usize, value: bool)
        requires
            pos < old(self)@.len(),
        ensures
            final(self)@ == old(self)@.update(pos as int, value),
    {
        let (index, offset) = self.index_offset(pos);
        let w = self.data[index];
        self.data[index] = w.with_bit(offset, value);
        proof {
            T::lemma_width();
            let wd = T::spec_width() as int;
            assert forall|i: int| 0 <= i < self@.len() implies self@[i] == old(self)@.update(
                pos as int,
                value,
            )[i] by {
                lemma_split(i, wd, N as int);
                lemma_split(pos as int, wd, N as int);
            }
            assert(self@ =~= old(self)@.update(pos as int, value));
        }
    }

    /// Whether the bit at position `pos` is true.
    pub fn get(&self, pos: usize) -> (r: bool)
        requires
            pos < self@.len(),
        ensures
            r == self@[pos as int],
    {
        let (index, offset) = self.index_offset(pos);
        let w = self.data[index];
        w.bit(offset)
    }

    /// The bit at position `pos` as a numeric value, `1` or `0`.
    pub fn get_bit(&self, pos: usize) -> (r: u8)
        requires
            pos < self@.len(),
        ensures
            r == (if self@[pos as int] {
                1u8
            } else {
                0u8
            }),
    {
        if self.get(pos) {
            1
        } else {
            0
        }
    }

    /// The number of words in the underlying array.
    pub fn len(&self) -> (r: usize)
        ensures
            r == N,
            r == self.words().len(),
    {
        N
    }

    /// Whether the underlying array holds no words at all.
    pub fn is_empty(&self) -> (r: bool)
        ensures
            r == (N == 0),
            r == (self@.len() == 0),
    {
        proof {
            T::lemma_width();
        }
        N == 0
    }

    /// The number of bits in the container.
    pub fn bit_len(&self) -> (r: usize)
        requires
            (N as nat) * T::spec_width() <= usize::MAX as nat,
        ensures
            r == self@.len(),
            r == (N as nat) * T::spec_width(),
    {
        proof {
            T::lemma_width();
        }
        N * T::word_bits()
    }

    /// Toggle every bit: each true bit becomes false and each false bit true.
    pub fn flip(&mut self)
        ensures
            final(self)@.len() == old(self)@.len(),
            forall|i: int| 0 <= i < old(self)@.len() ==> final(self)@[i] == !old(self)@[i],
    {
        let mut k: usize = 0;
        while k < N
            invariant
                k <= N,
                forall|j: int| k <= j < N ==> self.data@[j] == old(self).data@[j],
                forall|j: int, b: int|
                    0 <= j < k && 0 <= b < T::spec_width() ==> self.data@[j].spec_bit(b) == !old(
                        self,
                    ).data@[j].spec_bit(b),
            decreases N - k,
        {
            let w = self.data[k];
            self.data[k] = w.complement();
            k = k + 1;
        }
        proof {
            T::lemma_width();
            assert forall|i: int| 0 <= i < old(self)@.len() implies self@[i] == !old(self)@[i] by {
                lemma_split(i, T::spec_width() as int, N as int);
            }
        }
    }

    /// Whether any bit is true. Scans the words and stops at the first
    /// nonzero one.
    pub fn any(&self) -> (r: bool)
        ensures
            r == self.spec_any(),
    {
        proof {
            T::lemma_width();
        }
        let mut k: usize = 0;
        while k < N
            invariant
                k <= N,
                forall|j: int, b: int|
                    0 <= j < k && 0 <= b < T::spec_width() ==> !self.data@[j].spec_bit(b),
            decreases N - k,
        {
            let w = self.data[k];
            if !w.is_zero() {
                proof {
                    T::lemma_width();
                    let wd = T::spec_width() as int;
                    let b = choose|b: int| 0 <= b < wd && w.spec_bit(b);
                    lemma_compose(k as int, b, wd, N as int);
                    assert(self@[k as int * wd + b]);
                }
                return true;
            }
            k = k + 1;
        }
        proof {
            assert forall|i: int| 0 <= i < self@.len() implies !self@[i] by {
                lemma_split(i, T::spec_width() as int, N as int);
            }
        }
        false
    }

    /// Whether every bit is true. Scans the words and stops at the first one
    /// that is not all ones.
    pub fn all(&self) -> (r: bool)
        ensures
            r == self.spec_all(),
    {
        proof {
            T::lemma_width();
        }
        let mut k: usize = 0;
        while k < N
            invariant
                k <= N,
                forall|j: int, b: int|
                    0 <= j < k && 0 <= b < T::spec_width() ==> self.data@[j].spec_bit(b),
            decreases N - k,
        {
            let w = self.data[k];
            if !w.is_max() {
                proof {
                    T::lemma_width();
                    let wd = T::spec_width() as int;
                    let b = choose|b: int| 0 <= b < wd && !w.spec_bit(b);
                    lemma_compose(k as int, b, wd, N as int);
                    assert(!self@[k as int * wd + b]);
                }
                return false;
            }
            k = k + 1;
        }
        proof {
            assert forall|i: int| 0 <= i < self@.len() implies self@[i] by {
                lemma_split(i, T::spec_width() as int, N as int);
            }
        }
        true
    }

    /// Whether no bit is true. Scans the words and stops at the first
    /// nonzero one.
    pub fn none(&self) -> (r: bool)
        ensures
            r == self.spec_none(),
    {
        proof {
            T::lemma_width();
        }
        let mut k: usize = 0;
        while k < N
            invariant
                k <= N,
                forall|j: int, b: int|
                    0 <= j < k && 0 <= b < T::spec_width() ==> !self.data@[j].spec_bit(b),
            decreases N - k,
        {
            let w = self.data[k];
            if !w.is_zero() {
                proof {
                    T::lemma_width();
                    let wd = T::spec_width() as int;
                    let b = choose|b: int| 0 <= b < wd && w.spec_bit(b);
                    lemma_compose(k as int, b, wd, N as int);
                    assert(self@[k as int * wd + b]);
                }
                return false;
            }
            k = k + 1;
        }
        proof {
            assert forall|i: int| 0 <= i < self@.len() implies !self@[i] by {
                lemma_split(i, T::spec_width() as int, N as int);
            }
        }
        true
    }

    /// The underlying word array.
    pub fn as_array(&self) -> (r: &[T; N])
        ensures
            r@ == self.words(),
    {
        &self.data
    }

    /// A fresh iterator over the bits, yielding `1` or `0` per position in
    /// ascending order.
    pub fn bits(&self) -> (r: BitIter<'_, N, T>)
        ensures
            r.target() == *self,
            r.cursor() == 0,
    {
        BitIter { bitset: self, position: 0 }
    }

    /// A fresh iterator over the bits, yielding `true` or `false` per
    /// position in ascending order.
    pub fn iter(&self) -> (r: Iter<'_, N, T>)
        ensures
            r.target() == *self,
            r.cursor() == 0,
    {
        Iter { bitset: self, position: 0 }
    }

    /// The container rendered as the ordered list of its bit values, produced
    /// by draining a fresh bit-value iterator.
    pub fn to_bit_vec(&self) -> (r: Vec<u8>)
        requires
            (N as nat) * T::spec_width() <= usize::MAX as nat,
        ensures
            r@.len() == self@.len(),
            forall|i: int|
                0 <= i < self@.len() ==> r@[i] == (if self@[i] {
                    1u8
                } else {
                    0u8
                }),
    {
        let mut out: Vec<u8> = Vec::new();
        let mut it = self.bits();
        loop
            invariant
                (N as nat) * T::spec_width() <= usize::MAX as nat,
                it.target() == *self,
                0 <= it.cursor() <= self@.len(),
                out@.len() == it.cursor(),
                forall|i: int|
                    0 <= i < it.cursor() ==> out@[i] == (if self@[i] {
                        1u8
                    } else {
                        0u8
                    }),
            decreases self@.len() - it.cursor(),
        {
            match it.next() {
                Some(bit) => {
                    out.push(bit);
                },
                None => {
                    return out;
                },
            }
        }
    }
}

impl<const N: usize, T: Word> Default for Bitset<N, T> {
    /// A container with all bits false, as [`Bitset::new`] builds it.
    fn default() -> (r: Self)
        ensures
            r@.len() == (N as nat) * T::spec_width(),
            forall|i: int| 0 <= i < r@.len() ==> !r@[i],
    {
        Self::new()
    }
}

/// A read-only forward cursor over the bits of a [`Bitset`], yielding each
/// bit as `1` or `0`, in ascending position order.
pub struct BitIter<'a, const N: usize, T> {
    bitset: &'a Bitset<N, T>,
    position: usize,
}

impl<'a, const N: usize, T: Word> BitIter<'a, N, T> {
    /// The container the cursor reads.
    pub closed spec fn target(self) -> Bitset<N, T> {
        *self.bitset
    }

    /// The position of the next bit to yield.
    pub closed spec fn cursor(self) -> int {
        self.position as int
    }

    /// Yield the bit at the cursor as `1` or `0` and advance, or signal
    /// end-of-sequence once every position has been yielded. Further calls
    /// after the end keep signalling end-of-sequence.
    pub fn next(&mut self) -> (r: Option<u8>)
        requires
            (N as nat) * T::spec_width() <= usize::MAX as nat,
        ensures
            final(self).target() == old(self).target(),
            old(self).cursor() < old(self).target()@.len() ==> {
                &&& final(self).cursor() == old(self).cursor() + 1
                &&& r == Some(
                    if old(self).target()@[old(self).cursor()] {
                        1u8
                    } else {
                        0u8
                    },
                )
            },
            old(self).cursor() >= old(self).target()@.len() ==> {
                &&& final(self).cursor() == old(self).cursor()
                &&& r is None
            },
    {
        if self.position < self.bitset.bit_len() {
            let bit = self.bitset.get_bit(self.position);
            self.position = self.position + 1;
            Some(bit)
        } else {
            None
        }
    }
}

/// A read-only forward cursor over the bits of a [`Bitset`], yielding each
/// bit as `true` or `false`, in ascending position order.
pub struct Iter<'a, const N: usize, T> {
    bitset: &'a Bitset<N, T>,
    position: usize,
}

impl<'a, const N: usize, T: Word> Iter<'a, N, T> {
    /// The container the cursor reads.
    pub closed spec fn target(self) -> Bitset<N, T> {
        *self.bitset
    }

    /// The position of the next bit to yield.
    pub closed spec fn cursor(self) -> int {
        self.position as int
    }

    /// Yield the bit at the cursor and advance, or signal end-of-sequence
    /// once every position has been yielded. Further calls after the end
    /// keep signalling end-of-sequence.
    pub fn next(&mut self) -> (r: Option<bool>)
        requires
            (N as nat) * T::spec_width() <= usize::MAX as nat,
        ensures
            final(self).target() == old(self).target(),
            old(self).cursor() < old(self).target()@.len() ==> {
                &&& final(self).cursor() == old(self).cursor() + 1
                &&& r == Some(old(self).target()@[old(self).cursor()])
            },
            old(self).cursor() >= old(self).target()@.len() ==> {
                &&& final(self).cursor() == old(self).cursor()
                &&& r is None
            },
    {
        if self.position < self.bitset.bit_len() {
            let bit = self.bitset.get(self.position);
            self.position = self.position + 1;
            Some(bit)
        } else {
            None
        }
    }
}

} // verus!
