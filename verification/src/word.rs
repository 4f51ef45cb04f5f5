//! The fixed-width unsigned integer units that a bitset packs its bits into.
//!
//! Every supported word type has a power-of-two bit width (8, 16, 32 or 64).
//! A word is modelled in specifications by the predicate [`Word::spec_bit`],
//! which says whether the bit at a given offset is one.

use vstd::prelude::*;

verus! {

/// A fixed-width unsigned integer usable as the storage unit of a bitset.
///
/// The bit at offset `i` of a word `w` is `w.spec_bit(i)`; offsets run from
/// zero (least significant) to `Self::spec_width() - 1` (most significant).
pub trait Word: Copy + Sized {
    /// The bit width of the word type.
    spec fn spec_width() -> nat;

    /// Whether the bit at offset `i` is one.
    spec fn spec_bit(self, i: int) -> bool;

    /// The supported word widths: 8, 16, 32 and 64 bits, all powers of two.
    proof fn lemma_width()
        ensures
            Self::spec_width() == 8 || Self::spec_width() == 16 || Self::spec_width() == 32
                || Self::spec_width() == 64,
    ;

    /// The bit width of the word type, as a run-time value.
    fn word_bits() -> (r: usize)
        ensures
            r == Self::spec_width(),
    ;

    /// The word with every bit zero.
    fn zero() -> (r: Self)
        ensures
            forall|i: int| 0 <= i < Self::spec_width() ==> !r.spec_bit(i),
    ;

    /// A copy of the word with the bit at `off` forced to `value` and every
    /// other bit unchanged.
    fn with_bit(self, off: usize, value: bool) -> (r: Self)
        requires
            off < Self::spec_width(),
        ensures
            r.spec_bit(off as int) == value,
            forall|i: int|
                0 <= i < Self::spec_width() && i != off ==> r.spec_bit(i) == self.spec_bit(i),
    ;

    /// The bit at offset `off`.
    fn bit(self, off: usize) -> (r: bool)
        requires
            off < Self::spec_width(),
        ensures
            r == self.spec_bit(off as int),
    ;

    /// The bitwise complement: every bit toggled.
    fn complement(self) -> (r: Self)
        ensures
            forall|i: int| 0 <= i < Self::spec_width() ==> r.spec_bit(i) == !self.spec_bit(i),
    ;

    /// Whether every bit of the word is zero.
    fn is_zero(self) -> (r: bool)
        ensures
            r == (forall|i: int| 0 <= i < Self::spec_width() ==> !self.spec_bit(i)),
    ;

    /// Whether every bit of the word is one.
    fn is_max(self) -> (r: bool)
        ensures
            r == (forall|i: int| 0 <= i < Self::spec_width() ==> self.spec_bit(i)),
    ;
}

proof fn u8_bv_set(w: u8, o: u8, r: u8, value: bool)
    by (bit_vector)
    requires
        o < 8,
        r == (if value {
            w | (1u8 << o)
        } else {
            w & !(1u8 << o)
        }),
    ensures
        (0x1u8 & (r >> o) == 1u8) == value,
        forall|j: u8| #![auto] j < 8 && j != o ==> (0x1u8 & (r >> j)) == (0x1u8 & (w >> j)),
{
}

proof fn u8_bv_not(w: u8, r: u8)
    by (bit_vector)
    requires
        r == !w,
    ensures
        forall|j: u8| #![auto] j < 8 ==> (0x1u8 & (r >> j) == 1u8) == !(0x1u8 & (w >> j) == 1u8),
{
}

proof fn u8_bv_const(w: u8)
    by (bit_vector)
    ensures
        w == 0 ==> (forall|j: u8| #![auto] j < 8 ==> 0x1u8 & (w >> j) != 1u8),
        w == 0xffu8 ==> (forall|j: u8| #![auto] j < 8 ==> 0x1u8 & (w >> j) == 1u8),
{
}

/// The offset of some one bit in a nonzero word, found by scanning upward
/// from `lo`.
proof fn u8_find_bit(w: u8, lo: u8) -> (j: u8)
    requires
        lo < 8,
        w >> lo != 0,
    ensures
        lo <= j < 8,
        0x1u8 & (w >> j) == 1u8,
    decreases 8 - lo,
{
    if 0x1u8 & (w >> lo) == 1u8 {
        lo
    } else {
        let lo2: u8 = (lo + 1) as u8;
        assert(lo < 7 && w >> lo2 != 0) by (bit_vector)
            requires
                w >> lo != 0,
                0x1u8 & (w >> lo) != 1u8,
                lo < 8,
                lo2 == lo + 1,
        ;
        u8_find_bit(w, lo2)
    }
}

impl Word for u8 {
    open spec fn spec_width() -> nat {
        8
    }

    open spec fn spec_bit(self, i: int) -> bool {
        0x1u8 & (self >> (i as u8)) == 1u8
    }

    proof fn lemma_width() {
    }

    fn word_bits() -> (r: usize) {
        8
    }

    fn zero() -> (r: Self) {
        proof {
            u8_bv_const(0u8);
        }
        0u8
    }

    fn with_bit(self, off: usize, value: bool) -> (r: Self) {
        let o = off as u8;
        let r = if value {
            self | (1u8 << o)
        } else {
            self & !(1u8 << o)
        };
        proof {
            u8_bv_set(self, o, r, value);
            assert forall|i: int| 0 <= i < 8 && i != off implies r.spec_bit(i) == self.spec_bit(
                i,
            ) by {
                let j: u8 = i as u8;
                assert((0x1u8 & (r >> j)) == (0x1u8 & (self >> j)));
            }
        }
        r
    }

    fn bit(self, off: usize) -> (r: bool) {
        let o = off as u8;
        0x1u8 & (self >> o) == 1u8
    }

    fn complement(self) -> (r: Self) {
        let r = !self;
        proof {
            u8_bv_not(self, r);
        }
        r
    }

    fn is_zero(self) -> (r: bool) {
        let r = self == 0u8;
        proof {
            u8_bv_const(self);
            if !r {
                assert(self >> 0u8 != 0) by (bit_vector)
                    requires
                        self != 0u8,
                ;
                let j = u8_find_bit(self, 0);
                assert(self.spec_bit(j as int));
            }
        }
        r
    }

    fn is_max(self) -> (r: bool) {
        let r = self == 0xffu8;
        proof {
            u8_bv_const(self);
            if !r {
                let v: u8 = !self;
                assert(v >> 0u8 != 0) by (bit_vector)
                    requires
                        self != 0xffu8,
                        v == !self,
                ;
                let j = u8_find_bit(v, 0);
                u8_bv_not(self, v);
                assert(!self.spec_bit(j as int));
            }
        }
        r
    }
}

proof fn u16_bv_set(w: u16, o: u16, r: u16, value: bool)
    by (bit_vector)
    requires
        o < 16,
        r == (if value {
            w | (1u16 << o)
        } else {
            w & !(1u16 << o)
        }),
    ensures
        (0x1u16 & (r >> o) == 1u16) == value,
        forall|j: u16| #![auto] j < 16 && j != o ==> (0x1u16 & (r >> j)) == (0x1u16 & (w >> j)),
{
}

proof fn u16_bv_not(w: u16, r: u16)
    by (bit_vector)
    requires
        r == !w,
    ensures
        forall|j: u16| #![auto] j < 16 ==> (0x1u16 & (r >> j) == 1u16) == !(0x1u16 & (w >> j)
            == 1u16),
{
}

proof fn u16_bv_const(w: u16)
    by (bit_vector)
    ensures
        w == 0 ==> (forall|j: u16| #![auto] j < 16 ==> 0x1u16 & (w >> j) != 1u16),
        w == 0xffffu16 ==> (forall|j: u16| #![auto] j < 16 ==> 0x1u16 & (w >> j) == 1u16),
{
}

/// The offset of some one bit in a nonzero word, found by scanning upward
/// from `lo`.
proof fn u16_find_bit(w: u16, lo: u16) -> (j: u16)
    requires
        lo < 16,
        w >> lo != 0,
    ensures
        lo <= j < 16,
        0x1u16 & (w >> j) == 1u16,
    decreases 16 - lo,
{
    if 0x1u16 & (w >> lo) == 1u16 {
        lo
    } else {
        let lo2: u16 = (lo + 1) as u16;
        assert(lo < 15 && w >> lo2 != 0) by (bit_vector)
            requires
                w >> lo != 0,
                0x1u16 & (w >> lo) != 1u16,
                lo < 16,
                lo2 == lo + 1,
        ;
        u16_find_bit(w, lo2)
    }
}

impl Word for u16 {
    open spec fn spec_width() -> nat {
        16
    }

    open spec fn spec_bit(self, i: int) -> bool {
        0x1u16 & (self >> (i as u16)) == 1u16
    }

    proof fn lemma_width() {
    }

    fn word_bits() -> (r: usize) {
        16
    }

    fn zero() -> (r: Self) {
        proof {
            u16_bv_const(0u16);
        }
        0u16
    }

    fn with_bit(self, off: usize, value: bool) -> (r: Self) {
        let o = off as u16;
        let r = if value {
            self | (1u16 << o)
        } else {
            self & !(1u16 << o)
        };
        proof {
            u16_bv_set(self, o, r, value);
            assert forall|i: int| 0 <= i < 16 && i != off implies r.spec_bit(i) == self.spec_bit(
                i,
            ) by {
                let j: u16 = i as u16;
                assert((0x1u16 & (r >> j)) == (0x1u16 & (self >> j)));
            }
        }
        r
    }

    fn bit(self, off: usize) -> (r: bool) {
        let o = off as u16;
        0x1u16 & (self >> o) == 1u16
    }

    fn complement(self) -> (r: Self) {
        let r = !self;
        proof {
            u16_bv_not(self, r);
        }
        r
    }

    fn is_zero(self) -> (r: bool) {
        let r = self == 0u16;
        proof {
            u16_bv_const(self);
            if !r {
                assert(self >> 0u16 != 0) by (bit_vector)
                    requires
                        self != 0u16,
                ;
                let j = u16_find_bit(self, 0);
                assert(self.spec_bit(j as int));
            }
        }
        r
    }

    fn is_max(self) -> (r: bool) {
        let r = self == 0xffffu16;
        proof {
            u16_bv_const(self);
            if !r {
                let v: u16 = !self;
                assert(v >> 0u16 != 0) by (bit_vector)
                    requires
                        self != 0xffffu16,
                        v == !self,
                ;
                let j = u16_find_bit(v, 0);
                u16_bv_not(self, v);
                assert(!self.spec_bit(j as int));
            }
        }
        r
    }
}

proof fn u32_bv_set(w: u32, o: u32, r: u32, value: bool)
    by (bit_vector)
    requires
        o < 32,
        r == (if value {
            w | (1u32 << o)
        } else {
            w & !(1u32 << o)
        }),
    ensures
        (0x1u32 & (r >> o) == 1u32) == value,
        forall|j: u32| #![auto] j < 32 && j != o ==> (0x1u32 & (r >> j)) == (0x1u32 & (w >> j)),
{
}

proof fn u32_bv_not(w: u32, r: u32)
    by (bit_vector)
    requires
        r == !w,
    ensures
        forall|j: u32| #![auto] j < 32 ==> (0x1u32 & (r >> j) == 1u32) == !(0x1u32 & (w >> j)
            == 1u32),
{
}

proof fn u32_bv_const(w: u32)
    by (bit_vector)
    ensures
        w == 0 ==> (forall|j: u32| #![auto] j < 32 ==> 0x1u32 & (w >> j) != 1u32),
        w == 0xffff_ffffu32 ==> (forall|j: u32| #![auto] j < 32 ==> 0x1u32 & (w >> j) == 1u32),
{
}

/// The offset of some one bit in a nonzero word, found by scanning upward
/// from `lo`.
proof fn u32_find_bit(w: u32, lo: u32) -> (j: u32)
    requires
        lo < 32,
        w >> lo != 0,
    ensures
        lo <= j < 32,
        0x1u32 & (w >> j) == 1u32,
    decreases 32 - lo,
{
    if 0x1u32 & (w >> lo) == 1u32 {
        lo
    } else {
        let lo2: u32 = (lo + 1) as u32;
        assert(lo < 31 && w >> lo2 != 0) by (bit_vector)
            requires
                w >> lo != 0,
                0x1u32 & (w >> lo) != 1u32,
                lo < 32,
                lo2 == lo + 1,
        ;
        u32_find_bit(w, lo2)
    }
}

impl Word for u32 {
    open spec fn spec_width() -> nat {
        32
    }

    open spec fn spec_bit(self, i: int) -> bool {
        0x1u32 & (self >> (i as u32)) == 1u32
    }

    proof fn lemma_width() {
    }

    fn word_bits() -> (r: usize) {
        32
    }

    fn zero() -> (r: Self) {
        proof {
            u32_bv_const(0u32);
        }
        0u32
    }

    fn with_bit(self, off: usize, value: bool) -> (r: Self) {
        let o = off as u32;
        let r = if value {
            self | (1u32 << o)
        } else {
            self & !(1u32 << o)
        };
        proof {
            u32_bv_set(self, o, r, value);
            assert forall|i: int| 0 <= i < 32 && i != off implies r.spec_bit(i) == self.spec_bit(
                i,
            ) by {
                let j: u32 = i as u32;
                assert((0x1u32 & (r >> j)) == (0x1u32 & (self >> j)));
            }
        }
        r
    }

    fn bit(self, off: usize) -> (r: bool) {
        let o = off as u32;
        0x1u32 & (self >> o) == 1u32
    }

    fn complement(self) -> (r: Self) {
        let r = !self;
        proof {
            u32_bv_not(self, r);
        }
        r
    }

    fn is_zero(self) -> (r: bool) {
        let r = self == 0u32;
        proof {
            u32_bv_const(self);
            if !r {
                assert(self >> 0u32 != 0) by (bit_vector)
                    requires
                        self != 0u32,
                ;
                let j = u32_find_bit(self, 0);
                assert(self.spec_bit(j as int));
            }
        }
        r
    }

    fn is_max(self) -> (r: bool) {
        let r = self == 0xffff_ffffu32;
        proof {
            u32_bv_const(self);
            if !r {
                let v: u32 = !self;
                assert(v >> 0u32 != 0) by (bit_vector)
                    requires
                        self != 0xffff_ffffu32,
                        v == !self,
                ;
                let j = u32_find_bit(v, 0);
                u32_bv_not(self, v);
                assert(!self.spec_bit(j as int));
            }
        }
        r
    }
}

proof fn u64_bv_set(w: u64, o: u64, r: u64, value: bool)
    by (bit_vector)
    requires
        o < 64,
        r == (if value {
            w | (1u64 << o)
        } else {
            w & !(1u64 << o)
        }),
    ensures
        (0x1u64 & (r >> o) == 1u64) == value,
        forall|j: u64| #![auto] j < 64 && j != o ==> (0x1u64 & (r >> j)) == (0x1u64 & (w >> j)),
{
}

proof fn u64_bv_not(w: u64, r: u64)
    by (bit_vector)
    requires
        r == !w,
    ensures
        forall|j: u64| #![auto] j < 64 ==> (0x1u64 & (r >> j) == 1u64) == !(0x1u64 & (w >> j)
            == 1u64),
{
}

proof fn u64_bv_const(w: u64)
    by (bit_vector)
    ensures
        w == 0 ==> (forall|j: u64| #![auto] j < 64 ==> 0x1u64 & (w >> j) != 1u64),
        w == 0xffff_ffff_ffff_ffffu64 ==> (forall|j: u64| #![auto] j < 64 ==> 0x1u64 & (w >> j)
            == 1u64),
{
}

/// The offset of some one bit in a nonzero word, found by scanning upward
/// from `lo`.
proof fn u64_find_bit(w: u64, lo: u64) -> (j: u64)
    requires
        lo < 64,
        w >> lo != 0,
    ensures
        lo <= j < 64,
        0x1u64 & (w >> j) == 1u64,
    decreases 64 - lo,
{
    if 0x1u64 & (w >> lo) == 1u64 {
        lo
    } else {
        let lo2: u64 = (lo + 1) as u64;
        assert(lo < 63 && w >> lo2 != 0) by (bit_vector)
            requires
                w >> lo != 0,
                0x1u64 & (w >> lo) != 1u64,
                lo < 64,
                lo2 == lo + 1,
        ;
        u64_find_bit(w, lo2)
    }
}

impl Word for u64 {
    open spec fn spec_width() -> nat {
        64
    }

    open spec fn spec_bit(self, i: int) -> bool {
        0x1u64 & (self >> (i as u64)) == 1u64
    }

    proof fn lemma_width() {
    }

    fn word_bits() -> (r: usize) {
        64
    }

    fn zero() -> (r: Self) {
        proof {
            u64_bv_const(0u64);
        }
        0u64
    }

    fn with_bit(self, off: usize, value: bool) -> (r: Self) {
        let o = off as u64;
        let r = if value {
            self | (1u64 << o)
        } else {
            self & !(1u64 << o)
        };
        proof {
            u64_bv_set(self, o, r, value);
            assert forall|i: int| 0 <= i < 64 && i != off implies r.spec_bit(i) == self.spec_bit(
                i,
            ) by {
                let j: u64 = i as u64;
                assert((0x1u64 & (r >> j)) == (0x1u64 & (self >> j)));
            }
        }
        r
    }

    fn bit(self, off: usize) -> (r: bool) {
        let o = off as u64;
        0x1u64 & (self >> o) == 1u64
    }

    fn complement(self) -> (r: Self) {
        let r = !self;
        proof {
            u64_bv_not(self, r);
        }
        r
    }

    fn is_zero(self) -> (r: bool) {
        let r = self == 0u64;
        proof {
            u64_bv_const(self);
            if !r {
                assert(self >> 0u64 != 0) by (bit_vector)
                    requires
                        self != 0u64,
                ;
                let j = u64_find_bit(self, 0);
                assert(self.spec_bit(j as int));
            }
        }
        r
    }

    fn is_max(self) -> (r: bool) {
        let r = self == 0xffff_ffff_ffff_ffffu64;
        proof {
            u64_bv_const(self);
            if !r {
                let v: u64 = !self;
                assert(v >> 0u64 != 0) by (bit_vector)
                    requires
                        self != 0xffff_ffff_ffff_ffffu64,
                        v == !self,
                ;
                let j = u64_find_bit(v, 0);
                u64_bv_not(self, v);
                assert(!self.spec_bit(j as int));
            }
        }
        r
    }
}

} // verus!
