//! One step of the recurrence: from the probabilities at one time to those
//! at the next.
//!
//! The probability of a cell is the sum, over the cells within reach of the
//! kernel, of what they held a step earlier times the kernel's weight for the
//! way from there to here, and all of it times the cell's field probability.
//! Cells beyond the edge of the grid contribute nothing.  The terms are added
//! column by column and, within a column, row by row, each from the least
//! coordinate to the greatest.

use crate::arithmetic::{absorbing, is_null, null, Arithmetic};
use crate::grid::{is_square, rows};
use crate::kernel::Kernel;
use vstd::prelude::*;

verus! {

/// Whether `(x, y)` is a cell of the grid that reaches from `-limit` to `limit`.
pub open spec fn inside(limit: int, x: int, y: int) -> bool {
    &&& -limit <= x <= limit
    &&& -limit <= y <= limit
}

/// The cell `(x, y)` of a layer whose grid reaches from `-limit` to `limit`.
pub open spec fn layer_cell(layer: Seq<Seq<u64>>, limit: int, x: int, y: int) -> u64 {
    layer[limit + x][limit + y]
}

/// What the cell `(i, j)` of the earlier layer contributes to `(x, y)`.
pub open spec fn term<A: Arithmetic>(
    prev: Seq<Seq<u64>>,
    kernel: Seq<Seq<u64>>,
    limit: int,
    x: int,
    y: int,
    i: int,
    j: int,
) -> u64 {
    let radius = kernel.len() as int / 2;
    A::product(layer_cell(prev, limit, i, j), kernel[radius + (x - i)][radius + (y - j)])
}

/// The sum for `(x, y)` after the first `di` columns of the kernel's reach
/// and the first `dj` cells of the next column.
pub open spec fn gathered<A: Arithmetic>(
    prev: Seq<Seq<u64>>,
    kernel: Seq<Seq<u64>>,
    limit: int,
    x: int,
    y: int,
    di: int,
    dj: int,
) -> u64
    decreases di, dj,
{
    let radius = kernel.len() as int / 2;
    if di < 0 || dj < 0 {
        0
    } else if dj > 0 {
        let i = x - radius + di;
        let j = y - radius + (dj - 1);
        let before = gathered::<A>(prev, kernel, limit, x, y, di, dj - 1);
        if inside(limit, i, j) {
            A::sum(before, term::<A>(prev, kernel, limit, x, y, i, j))
        } else {
            before
        }
    } else if di > 0 {
        gathered::<A>(prev, kernel, limit, x, y, di - 1, kernel.len() as int)
    } else {
        0
    }
}

/// `total` under the field probability `field`: the all-zero word where the
/// field probability holds no mass, their product elsewhere.
pub open spec fn masked<A: Arithmetic>(total: u64, field: u64) -> u64 {
    if null::<A>(field) {
        0
    } else {
        A::product(total, field)
    }
}

/// The probability of `(x, y)` one step after `prev`.
pub open spec fn stepped<A: Arithmetic>(
    prev: Seq<Seq<u64>>,
    kernel: Seq<Seq<u64>>,
    field: Seq<Seq<u64>>,
    limit: int,
    x: int,
    y: int,
) -> u64 {
    masked::<A>(
        gathered::<A>(prev, kernel, limit, x, y, kernel.len() as int, 0),
        layer_cell(field, limit, x, y),
    )
}

/// Whether `next` is the layer one step after `prev`.
pub open spec fn follows<A: Arithmetic>(
    next: Seq<Seq<u64>>,
    prev: Seq<Seq<u64>>,
    kernel: Seq<Seq<u64>>,
    field: Seq<Seq<u64>>,
    limit: int,
) -> bool {
    &&& is_square(next, (2 * limit + 1) as nat)
    &&& forall|x: int, y: int|
        inside(limit, x, y) ==> #[trigger] layer_cell(next, limit, x, y) == stepped::<A>(
            prev,
            kernel,
            field,
            limit,
            x,
            y,
        )
}

/// A sum of terms that hold no mass holds none, where nothing comes of
/// nothing.
pub proof fn lemma_gathered_nothing<A: Arithmetic>(
    prev: Seq<Seq<u64>>,
    kernel: Seq<Seq<u64>>,
    limit: int,
    x: int,
    y: int,
    di: int,
    dj: int,
)
    requires
        absorbing::<A>(),
        0 <= di <= kernel.len(),
        0 <= dj <= kernel.len(),
        dj > 0 ==> di < kernel.len(),
        forall|i: int, j: int|
            inside(limit, i, j) && -(kernel.len() as int / 2) <= i - x <= kernel.len() as int / 2
                && -(kernel.len() as int / 2) <= j - y <= kernel.len() as int / 2
                ==> null::<A>(#[trigger] term::<A>(prev, kernel, limit, x, y, i, j)),
        kernel.len() % 2 == 1,
    ensures
        null::<A>(gathered::<A>(prev, kernel, limit, x, y, di, dj)),
    decreases di, dj,
{
    if dj > 0 {
        lemma_gathered_nothing::<A>(prev, kernel, limit, x, y, di, dj - 1);
    } else if di > 0 {
        lemma_gathered_nothing::<A>(prev, kernel, limit, x, y, di - 1, kernel.len() as int);
    }
}

/// A cell holds no mass a step after a layer in which no cell within the
/// kernel's reach of it holds any, where nothing comes of nothing.
pub proof fn lemma_stepped_nothing<A: Arithmetic>(
    prev: Seq<Seq<u64>>,
    kernel: Seq<Seq<u64>>,
    field: Seq<Seq<u64>>,
    limit: int,
    x: int,
    y: int,
)
    requires
        absorbing::<A>(),
        kernel.len() % 2 == 1,
        forall|i: int, j: int|
            inside(limit, i, j) && -(kernel.len() as int / 2) <= i - x <= kernel.len() as int / 2
                && -(kernel.len() as int / 2) <= j - y <= kernel.len() as int / 2
                ==> null::<A>(#[trigger] layer_cell(prev, limit, i, j)),
    ensures
        null::<A>(stepped::<A>(prev, kernel, field, limit, x, y)),
{
    assert forall|i: int, j: int|
        inside(limit, i, j) && -(kernel.len() as int / 2) <= i - x <= kernel.len() as int / 2 && -(
        kernel.len() as int / 2) <= j - y <= kernel.len() as int / 2 implies null::<A>(
        #[trigger] term::<A>(prev, kernel, limit, x, y, i, j),
    ) by {
        assert(null::<A>(layer_cell(prev, limit, i, j)));
    }
    lemma_gathered_nothing::<A>(prev, kernel, limit, x, y, kernel.len() as int, 0);
}

/// Whether a grid that reaches from `-limit` to `limit` can be addressed.
pub open spec fn addressable(limit: usize) -> bool {
    2 * limit + 1 <= isize::MAX
}

/// Whether a grid that reaches from `-limit` to `limit` can be addressed.
pub fn is_addressable(limit: usize) -> (r: bool)
    ensures
        r == addressable(limit),
{
    limit <= (isize::MAX as usize - 1) / 2
}

/// The index `base + d - radius`, if it is at most `last`.
fn source_index(base: usize, d: usize, radius: usize, last: usize) -> (r: Option<usize>)
    requires
        base <= last,
    ensures
        r is Some <==> 0 <= base + d - radius <= last,
        r matches Some(i) ==> i == base + d - radius,
{
    if d >= radius {
        let ahead = d - radius;
        if ahead <= last - base {
            Some(base + ahead)
        } else {
            None
        }
    } else {
        let back = radius - d;
        if back <= base {
            Some(base - back)
        } else {
            None
        }
    }
}

/// The probability of the cell in column `column` and row `row` one step
/// after `table_old`.
pub fn apply_kernel<A: Arithmetic>(
    table_old: &Vec<Vec<u64>>,
    kernel: &Kernel,
    field: &Vec<Vec<u64>>,
    limit: usize,
    column: usize,
    row: usize,
) -> (p: u64)
    requires
        addressable(limit),
        is_square(rows(*table_old), (2 * limit + 1) as nat),
        is_square(rows(*field), (2 * limit + 1) as nat),
        kernel.wf(),
        kernel.side() % 2 == 1,
        column <= 2 * limit,
        row <= 2 * limit,
    ensures
        p == stepped::<A>(
            rows(*table_old),
            kernel.grid(),
            rows(*field),
            limit as int,
            column - limit,
            row - limit,
        ),
{
    let side = kernel.size();
    let radius = side / 2;
    let last = 2 * limit;
    let ghost prev = rows(*table_old);
    let ghost weights = kernel.grid();
    let ghost l = limit as int;
    let ghost x = column - limit;
    let ghost y = row - limit;
    let mut total: u64 = 0;
    let mut di: usize = 0;
    while di < side
        invariant
            di <= side,
            side == kernel.side(),
            side % 2 == 1,
            radius == side / 2,
            last == 2 * limit,
            column <= last,
            row <= last,
            kernel.wf(),
            is_square(rows(*table_old), (2 * limit + 1) as nat),
            prev == rows(*table_old),
            weights == kernel.grid(),
            l == limit,
            x == column - limit,
            y == row - limit,
            total == gathered::<A>(prev, weights, l, x, y, di as int, 0),
        decreases side - di,
    {
        let source_column = source_index(column, di, radius, last);
        let mut dj: usize = 0;
        while dj < side
            invariant
                di < side,
                dj <= side,
                side == kernel.side(),
                side % 2 == 1,
                radius == side / 2,
                last == 2 * limit,
                column <= last,
                row <= last,
                kernel.wf(),
                is_square(rows(*table_old), (2 * limit + 1) as nat),
                prev == rows(*table_old),
                weights == kernel.grid(),
                l == limit,
                x == column - limit,
                y == row - limit,
                source_column is Some <==> 0 <= column + di - radius <= last,
                source_column matches Some(i) ==> i == column + di - radius,
                total == gathered::<A>(prev, weights, l, x, y, di as int, dj as int),
            decreases side - dj,
        {
            let source_row = source_index(row, dj, radius, last);
            let ghost i = x - radius + di;
            let ghost j = y - radius + dj;
            match (source_column, source_row) {
                (Some(a), Some(b)) => {
                    assert(inside(l, i, j));
                    assert(rows(*table_old)[a as int].len() == 2 * limit + 1);
                    assert(kernel.grid()[side - 1 - di].len() == side);
                    let weight = kernel.probabilities[side - 1 - di][side - 1 - dj];
                    let held = table_old[a][b];
                    assert(held == layer_cell(prev, l, i, j));
                    assert(weight == weights[radius + (x - i)][radius + (y - j)]);
                    total = A::plus(total, A::times(held, weight));
                },
                _ => {
                    assert(!inside(l, i, j));
                },
            }
            dj += 1;
        }
        di += 1;
    }
    assert(rows(*field)[column as int].len() == 2 * limit + 1);
    let share = field[column][row];
    if is_null::<A>(share) {
        0
    } else {
        A::times(total, share)
    }
}

/// The layer one step after `table_old`.
pub fn next_layer<A: Arithmetic>(
    table_old: &Vec<Vec<u64>>,
    kernel: &Kernel,
    field: &Vec<Vec<u64>>,
    limit: usize,
) -> (next: Vec<Vec<u64>>)
    requires
        addressable(limit),
        is_square(rows(*table_old), (2 * limit + 1) as nat),
        is_square(rows(*field), (2 * limit + 1) as nat),
        kernel.wf(),
        kernel.side() % 2 == 1,
    ensures
        follows::<A>(rows(next), rows(*table_old), kernel.grid(), rows(*field), limit as int),
{
    let width = 2 * limit + 1;
    let mut next: Vec<Vec<u64>> = Vec::new();
    let mut column: usize = 0;
    while column < width
        invariant
            column <= width,
            width == 2 * limit + 1,
            addressable(limit),
            is_square(rows(*table_old), (2 * limit + 1) as nat),
            is_square(rows(*field), (2 * limit + 1) as nat),
            kernel.wf(),
            kernel.side() % 2 == 1,
            next@.len() == column,
            forall|a: int| 0 <= a < column ==> (#[trigger] next@[a])@.len() == width,
            forall|a: int, b: int|
                0 <= a < column && 0 <= b < width ==> (#[trigger] next@[a]@[b]) == stepped::<A>(
                    rows(*table_old),
                    kernel.grid(),
                    rows(*field),
                    limit as int,
                    a - limit,
                    b - limit,
                ),
        decreases width - column,
    {
        let mut cells: Vec<u64> = Vec::new();
        let mut row: usize = 0;
        while row < width
            invariant
                column < width,
                row <= width,
                width == 2 * limit + 1,
                addressable(limit),
                is_square(rows(*table_old), (2 * limit + 1) as nat),
                is_square(rows(*field), (2 * limit + 1) as nat),
                kernel.wf(),
                kernel.side() % 2 == 1,
                cells@.len() == row,
                forall|b: int|
                    0 <= b < row ==> (#[trigger] cells@[b]) == stepped::<A>(
                        rows(*table_old),
                        kernel.grid(),
                        rows(*field),
                        limit as int,
                        column - limit,
                        b - limit,
                    ),
            decreases width - row,
        {
            cells.push(apply_kernel::<A>(table_old, kernel, field, limit, column, row));
            row += 1;
        }
        next.push(cells);
        column += 1;
    }
    proof {
        let l = limit as int;
        assert forall|x: int, y: int| inside(l, x, y) implies #[trigger] layer_cell(
            rows(next),
            l,
            x,
            y,
        ) == stepped::<A>(rows(*table_old), kernel.grid(), rows(*field), l, x, y) by {
            assert(next@[l + x]@[l + y] == stepped::<A>(
                rows(*table_old),
                kernel.grid(),
                rows(*field),
                l,
                (l + x) - l,
                (l + y) - l,
            ));
        }
    }
    next
}

} // verus!
