//! Bounds on the tables that are computed in fixed-point arithmetic.
//!
//! Under a kernel whose weights add up to at most one, and field
//! probabilities of at most one, no cell of a computed table holds more than
//! one.

use crate::arithmetic::{Arithmetic, FixedPoint, FIXED_ONE};
use crate::dp::recurrence::{follows, gathered, inside, layer_cell, stepped};
use crate::dp::simple::DynamicProgram;
use crate::grid::is_square;
use vstd::prelude::*;

verus! {

/// The sum of the kernel's weights for the first `di` columns of its reach
/// and the first `dj` cells of the next column, as a number.
pub open spec fn weights_total(kernel: Seq<Seq<u64>>, di: int, dj: int) -> int
    decreases di, dj,
{
    let last = kernel.len() as int - 1;
    if di < 0 || dj < 0 {
        0
    } else if dj > 0 {
        weights_total(kernel, di, dj - 1) + kernel[last - di][last - (dj - 1)]
    } else if di > 0 {
        weights_total(kernel, di - 1, kernel.len() as int)
    } else {
        0
    }
}

/// Whether the weights of `kernel` add up to at most one.
pub open spec fn is_substochastic(kernel: Seq<Seq<u64>>) -> bool {
    &&& kernel.len() % 2 == 1
    &&& is_square(kernel, kernel.len())
    &&& weights_total(kernel, kernel.len() as int, 0) <= FIXED_ONE
}

/// Whether no cell of `layer` holds more than one.
pub open spec fn is_bounded(layer: Seq<Seq<u64>>, limit: int) -> bool {
    forall|x: int, y: int| inside(limit, x, y) ==> #[trigger] layer_cell(layer, limit, x, y) <= FIXED_ONE
}

/// What a cell of at most one contributes is at most the kernel's weight.
proof fn lemma_term_bound(held: u64, weight: u64)
    requires
        held <= FIXED_ONE,
    ensures
        FixedPoint::product(held, weight) <= weight,
{
    assert(held * weight / (FIXED_ONE as int) <= weight) by (nonlinear_arith)
        requires
            0 <= held <= FIXED_ONE,
            0 <= weight,
            FIXED_ONE == 0x1_0000_0000,
    ;
}

/// The sum for a cell is at most the sum of the weights that went into it.
proof fn lemma_gathered_bound(
    prev: Seq<Seq<u64>>,
    kernel: Seq<Seq<u64>>,
    limit: int,
    x: int,
    y: int,
    di: int,
    dj: int,
)
    requires
        kernel.len() % 2 == 1,
        is_bounded(prev, limit),
        0 <= di <= kernel.len(),
        0 <= dj <= kernel.len(),
        dj > 0 ==> di < kernel.len(),
    ensures
        gathered::<FixedPoint>(prev, kernel, limit, x, y, di, dj) <= weights_total(kernel, di, dj),
    decreases di, dj,
{
    let w = kernel.len() as int;
    let radius = w / 2;
    if dj > 0 {
        lemma_gathered_bound(prev, kernel, limit, x, y, di, dj - 1);
        let i = x - radius + di;
        let j = y - radius + (dj - 1);
        if inside(limit, i, j) {
            assert(layer_cell(prev, limit, i, j) <= FIXED_ONE);
            lemma_term_bound(layer_cell(prev, limit, i, j), kernel[radius + (x - i)][radius + (y - j)]);
            assert(radius + (x - i) == w - 1 - di);
            assert(radius + (y - j) == w - 1 - (dj - 1));
        }
    } else if di > 0 {
        lemma_gathered_bound(prev, kernel, limit, x, y, di - 1, w);
    }
}

/// A step keeps the layer bounded.
pub proof fn lemma_step_bounded(
    next: Seq<Seq<u64>>,
    prev: Seq<Seq<u64>>,
    kernel: Seq<Seq<u64>>,
    field: Seq<Seq<u64>>,
    limit: int,
)
    requires
        follows::<FixedPoint>(next, prev, kernel, field, limit),
        is_substochastic(kernel),
        is_bounded(prev, limit),
        is_bounded(field, limit),
    ensures
        is_bounded(next, limit),
{
    assert forall|x: int, y: int| inside(limit, x, y) implies #[trigger] layer_cell(next, limit, x, y)
        <= FIXED_ONE by {
        let total = gathered::<FixedPoint>(prev, kernel, limit, x, y, kernel.len() as int, 0);
        lemma_gathered_bound(prev, kernel, limit, x, y, kernel.len() as int, 0);
        assert(layer_cell(next, limit, x, y) == stepped::<FixedPoint>(prev, kernel, field, limit, x, y));
        let share = layer_cell(field, limit, x, y);
        assert(share <= FIXED_ONE);
        lemma_term_bound(share, total);
        assert(total * share == share * total) by (nonlinear_arith);
    }
}

/// No cell of a table that was computed in fixed-point arithmetic holds more
/// than one, if the weights of the kernel add up to at most one and no field
/// probability is more than one.
pub proof fn lemma_computed_bounded(dp: DynamicProgram, t: int)
    requires
        dp.computed::<FixedPoint>(),
        is_substochastic(dp.kernel.grid()),
        is_bounded(dp.mask(), dp.limit()),
        0 <= t <= dp.time_limit,
    ensures
        is_bounded(dp.layer(t), dp.limit()),
    decreases t,
{
    if t > 0 {
        lemma_computed_bounded(dp, t - 1);
        lemma_step_bounded(dp.layer(t), dp.layer(t - 1), dp.kernel.grid(), dp.mask(), dp.limit());
    }
}

} // verus!
