//! What the engine asks of the host's floating-point unit.
//!
//! The engine keeps floating-point registers as bit patterns and computes no floating-point
//! number itself. An instruction that needs one names the computation in a `FloatOp`, the
//! host carries it out in IEEE-754 arithmetic, and the engine completes the instruction with
//! the bit patterns that come back in a `FloatResult`.

use vstd::prelude::*;

verus! {

/// A computation on bit patterns of IEEE-754 numbers. A double is given by its 64 bits, a
/// single by its 32 bits.
#[derive(Debug, PartialEq, Eq, Structural, Clone, Copy)]
pub enum FloatOp {
    /// The product `a × c` of two doubles: `Multiply(a, c)`.
    Multiply(u64, u64),
    /// The double `−((a × c) − b)`: `NegMultiplySub(a, b, c)`.
    NegMultiplySub(u64, u64, u64),
    /// The double `1 / √b`.
    RecipSqrt(u64),
    /// The double rounded to single precision and widened again.
    RoundToSingle(u64),
    /// The double narrowed to a single.
    Narrow(u64),
    /// Each of two doubles narrowed to a single.
    NarrowPair(u64, u64),
    /// The single widened to a double.
    Widen(u32),
    /// Each of two singles widened to a double.
    WidenPair(u32, u32),
}

/// The host's answer to a `FloatOp`. A double comes back as its 64 bits, a single as its 32
/// bits in the low half. `second` is read only where two numbers were asked for.
#[derive(Debug, PartialEq, Eq, Structural, Clone, Copy)]
pub struct FloatResult {
    pub first: u64,
    pub second: u64,
}

/// The bit pattern of the double 1.0.
pub const ONE_AS_DOUBLE: u64 = 0x3FF0_0000_0000_0000;

} // verus!
