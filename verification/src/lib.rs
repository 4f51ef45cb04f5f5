//! Fixed-sized sequence of bits, packed into an array of unsigned words.
//!
//! A [`Bitset`] stores a compile-time-fixed number of words of one of the
//! supported unsigned widths (8, 16, 32 or 64 bits) and addresses every bit
//! of every word by its position. It offers per-bit reads and writes, the
//! aggregate queries `any`, `all` and `none`, the bulk mutations `flip` and
//! `reset`, and two forward iterators over the bits, one numeric and one
//! boolean.

pub mod bitset;
pub mod laws;
pub mod word;

pub use crate::bitset::BitIter;
pub use crate::bitset::Bitset;
pub use crate::bitset::Iter;
pub use crate::word::Word;
