//! Arithmetic on weights.
//!
//! Every probability in this library is a *weight*: an opaque 64-bit word that
//! only an [`Arithmetic`] knows how to interpret.  Kernels, tables and field
//! masks store, compare and copy weights, and ask the arithmetic for
//! everything numeric.  All results are stated over the arithmetic's own
//! specification functions, so a computation is pinned down exactly once an
//! arithmetic is chosen.
//!
//! [`FixedPoint`] is the arithmetic that ships with the library.  An
//! application that wants IEEE-754 doubles implements [`Arithmetic`] over the
//! bit patterns of its doubles.

use vstd::prelude::*;

verus! {

/// The numeric operations that the library needs on weights.
///
/// Each operation returns exactly the value of the specification function it
/// is paired with.
pub trait Arithmetic {
    /// The weight that stands for `n / d`.
    spec fn fraction(n: u32, d: u32) -> u64;

    /// Whether `w` is a zero of the arithmetic.
    spec fn vanishes(w: u64) -> bool;

    /// `a + b`.
    spec fn sum(a: u64, b: u64) -> u64;

    /// `a - b`.
    spec fn difference(a: u64, b: u64) -> u64;

    /// `a * b`.
    spec fn product(a: u64, b: u64) -> u64;

    /// `a / b`.
    spec fn quotient(a: u64, b: u64) -> u64;

    /// The weight that stands for `n / d`.
    fn ratio(n: u32, d: u32) -> (r: u64)
        requires
            d != 0,
        ensures
            r == Self::fraction(n, d),
    ;

    /// Whether `w` is a zero of the arithmetic.
    fn is_zero(w: u64) -> (r: bool)
        ensures
            r == Self::vanishes(w),
    ;

    /// `a + b`.
    fn plus(a: u64, b: u64) -> (r: u64)
        ensures
            r == Self::sum(a, b),
    ;

    /// `a - b`.
    fn minus(a: u64, b: u64) -> (r: u64)
        ensures
            r == Self::difference(a, b),
    ;

    /// `a * b`.
    fn times(a: u64, b: u64) -> (r: u64)
        ensures
            r == Self::product(a, b),
    ;

    /// `a / b`.
    fn over(a: u64, b: u64) -> (r: u64)
        ensures
            r == Self::quotient(a, b),
    ;
}

/// Whether `w` holds no mass: it is the all-zero word, with which every
/// table starts, or a zero of the arithmetic.
pub open spec fn null<A: Arithmetic>(w: u64) -> bool {
    w == 0 || A::vanishes(w)
}

/// Whether `w` holds no mass.
pub fn is_null<A: Arithmetic>(w: u64) -> (r: bool)
    ensures
        r == null::<A>(w),
{
    w == 0 || A::is_zero(w)
}

/// Whether nothing comes of nothing in the arithmetic: a product of which a
/// factor holds no mass holds none, and neither does a sum of two terms that
/// hold none.
pub open spec fn absorbing<A: Arithmetic>() -> bool {
    &&& forall|a: u64, b: u64|
        null::<A>(a) || null::<A>(b) ==> null::<A>(#[trigger] A::product(a, b))
    &&& forall|a: u64, b: u64| null::<A>(a) && null::<A>(b) ==> null::<A>(#[trigger] A::sum(a, b))
}

/// One, in units of a weight of [`FixedPoint`].
pub const FIXED_ONE: u64 = 0x1_0000_0000;

/// Unsigned fixed-point numbers with 32 fractional bits.
///
/// A word `w` stands for `w / 2^32`.  Results are rounded toward zero and
/// saturate at the largest word; subtraction stops at zero and division by
/// zero gives the largest word.
pub struct FixedPoint;

/// `v`, or the largest word if `v` does not fit.
pub open spec fn saturated(v: int) -> u64 {
    if v > u64::MAX {
        u64::MAX
    } else if v < 0 {
        0
    } else {
        v as u64
    }
}

/// `v`, or the largest word if `v` does not fit.
fn saturate(v: u128) -> (r: u64)
    ensures
        r == saturated(v as int),
{
    if v > u64::MAX as u128 {
        u64::MAX
    } else {
        v as u64
    }
}

impl Arithmetic for FixedPoint {
    open spec fn fraction(n: u32, d: u32) -> u64 {
        if d == 0 {
            u64::MAX
        } else {
            saturated(n * FIXED_ONE / (d as int))
        }
    }

    open spec fn vanishes(w: u64) -> bool {
        w == 0
    }

    open spec fn sum(a: u64, b: u64) -> u64 {
        saturated(a + b)
    }

    open spec fn difference(a: u64, b: u64) -> u64 {
        saturated(a - b)
    }

    open spec fn product(a: u64, b: u64) -> u64 {
        saturated(a * b / (FIXED_ONE as int))
    }

    open spec fn quotient(a: u64, b: u64) -> u64 {
        if b == 0 {
            u64::MAX
        } else {
            saturated(a * FIXED_ONE / (b as int))
        }
    }

    fn ratio(n: u32, d: u32) -> (r: u64) {
        assert(n * FIXED_ONE <= 0xffff_ffff * 0x1_0000_0000) by (nonlinear_arith)
            requires
                n <= 0xffff_ffff,
                FIXED_ONE == 0x1_0000_0000,
        ;
        let scaled: u128 = (n as u128) * (FIXED_ONE as u128);
        saturate(scaled / (d as u128))
    }

    fn is_zero(w: u64) -> (r: bool) {
        w == 0
    }

    fn plus(a: u64, b: u64) -> (r: u64) {
        saturate(a as u128 + b as u128)
    }

    fn minus(a: u64, b: u64) -> (r: u64) {
        if a >= b {
            a - b
        } else {
            0
        }
    }

    fn times(a: u64, b: u64) -> (r: u64) {
        assert(a * b <= 0xffff_ffff_ffff_ffff * 0xffff_ffff_ffff_ffff) by (nonlinear_arith)
            requires
                0 <= a <= 0xffff_ffff_ffff_ffff,
                0 <= b <= 0xffff_ffff_ffff_ffff,
        ;
        let wide: u128 = (a as u128) * (b as u128);
        saturate(wide / (FIXED_ONE as u128))
    }

    fn over(a: u64, b: u64) -> (r: u64) {
        if b == 0 {
            u64::MAX
        } else {
            assert(a * FIXED_ONE <= 0xffff_ffff_ffff_ffff * 0x1_0000_0000) by (nonlinear_arith)
                requires
                    0 <= a <= 0xffff_ffff_ffff_ffff,
                    FIXED_ONE == 0x1_0000_0000,
            ;
            let wide: u128 = (a as u128) * (FIXED_ONE as u128);
            saturate(wide / (b as u128))
        }
    }
}

/// Nothing comes of nothing in fixed-point arithmetic.
pub proof fn lemma_fixed_point_absorbs()
    ensures
        absorbing::<FixedPoint>(),
{
    assert forall|a: u64, b: u64|
        null::<FixedPoint>(a) || null::<FixedPoint>(b) implies null::<FixedPoint>(
        #[trigger] FixedPoint::product(a, b),
    ) by {
        assert(a * b == 0) by (nonlinear_arith)
            requires
                a == 0 || b == 0,
        ;
    }
}

} // verus!
