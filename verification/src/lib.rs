//! Bit-indexed set library: fixed-width and layered bit vectors with a lazy
//! algebra of complement, union, intersection and difference wrappers.
//!
//! Every operation carries a contract over a common membership model: each
//! bitset value denotes the predicate `spec_test`, true exactly on the indexes
//! whose bits are set.

mod arith;
mod complement;
mod difference;
mod indirect;
mod intersection;
mod layered;
mod ops;
mod optional;
mod primitive;
mod union;

pub use complement::Complement;
pub use difference::Difference;
pub use intersection::Intersection;
pub use layered::Layered;
pub use union::Union;
pub use ops::BitComplement;
pub use ops::BitDifference;
pub use ops::BitDisjoint;
pub use ops::BitEmpty;
pub use ops::BitFull;
pub use ops::BitIntersection;
pub use ops::BitSearch;
pub use ops::BitSet;
pub use ops::BitSetLimit;
pub use ops::BitSubset;
pub use ops::BitTest;
pub use ops::BitTestAll;
pub use ops::BitTestNone;
pub use ops::BitUnion;
pub use ops::BitUnset;
pub use ops::BitUnsetLimit;
pub use ops::UltimateBitSet;

use vstd::prelude::*;

verus! {

pub type Bits1 = bool;

pub type Bits8 = u8;

pub type Bits16 = u16;

pub type Bits32 = u32;

pub type Bits64 = u64;

pub type Bits128 = u128;

pub type Bits256 = Layered<u32, u8, 32>;

pub type Bits512 = Layered<u64, u8, 64>;

pub type Bits1024 = Layered<u64, u16, 64>;

pub type Bits2048 = Layered<u64, u32, 64>;

pub type Bits4096 = Layered<u64, u64, 64>;

pub type Bits8192 = Layered<u64, u128, 64>;

pub type Bits16384 = Layered<u128, u128, 128>;

pub type Bits32768 = Layered<u64, Option<Box<Bits512>>, 64>;

pub type Bits65536 = Layered<u64, Option<Box<Bits1024>>, 64>;

pub type Bits131072 = Layered<u64, Option<Box<Bits2048>>, 64>;

pub type Bits262144 = Layered<u64, Option<Box<Bits4096>>, 64>;

pub type Bits524288 = Layered<u64, Option<Box<Bits8192>>, 64>;

pub type Bits1048576 = Layered<u64, Option<Box<Bits16384>>, 64>;

pub type Bits2097152 = Layered<u64, Option<Box<Bits32768>>, 64>;

pub type Bits4194304 = Layered<u64, Option<Box<Bits65536>>, 64>;

pub type Bits8388608 = Layered<u64, Option<Box<Bits131072>>, 64>;

pub type Bits16777216 = Layered<u64, Option<Box<Bits262144>>, 64>;

pub type Bits33554432 = Layered<u64, Option<Box<Bits524288>>, 64>;

pub type Bits67108864 = Layered<u64, Option<Box<Bits1048576>>, 64>;

/// The larger of two indexes.
pub fn max(a: usize, b: usize) -> (r: usize)
    ensures
        r == if a > b {
            a
        } else {
            b
        },
{
    if a > b {
        a
    } else {
        b
    }
}

/// The smaller of two indexes.
pub fn min(a: usize, b: usize) -> (r: usize)
    ensures
        r == if a > b {
            b
        } else {
            a
        },
{
    if a > b {
        b
    } else {
        a
    }
}

} // verus!
