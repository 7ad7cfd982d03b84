//! Computing a step tile by tile.
//!
//! The grid is cut into three bands of columns and three bands of rows,
//! which gives nine tiles.  A tile is computed from the layer of the time
//! before alone, so the nine tiles of one step can be computed in any order,
//! or at the same time, and merged into the new layer afterwards.

use crate::arithmetic::Arithmetic;
use crate::dp::recurrence::{addressable, apply_kernel, follows, inside, layer_cell, stepped};
use crate::dp::simple::{is_seed, seed_layer, DynamicProgram};
use crate::grid::{is_square, rows, uniform};
use crate::kernel::Kernel;
use vstd::prelude::*;

verus! {

/// A rectangle of cells: the columns from `first_column` up to, and without,
/// `end_column`, and the rows likewise.
#[derive(Debug, Clone, Copy, PartialEq, Eq, Structural)]
pub struct Tile {
    pub first_column: usize,
    pub end_column: usize,
    pub first_row: usize,
    pub end_row: usize,
}

impl Tile {
    /// Whether the tile lies on a grid of `width` columns and rows.
    pub open spec fn lies_on(self, width: int) -> bool {
        &&& self.first_column <= self.end_column <= width
        &&& self.first_row <= self.end_row <= width
    }

    /// Whether the tile has the cell in column `column` and row `row`.
    pub open spec fn has(self, column: int, row: int) -> bool {
        &&& self.first_column <= column < self.end_column
        &&& self.first_row <= row < self.end_row
    }
}

/// Where band `k` of a grid that reaches from `-limit` to `limit` begins:
/// the first two bands are a third of `limit + 1` wide, the third takes the
/// rest, and a fourth would begin behind the grid.
pub open spec fn band_start(limit: int, k: int) -> int {
    if k <= 0 {
        0
    } else if k == 1 {
        (limit + 1) / 3
    } else if k == 2 {
        2 * ((limit + 1) / 3)
    } else {
        2 * limit + 1
    }
}

/// The tile of band `i` of columns and band `j` of rows.
pub open spec fn tile_of(limit: int, i: int, j: int) -> Tile {
    Tile {
        first_column: band_start(limit, i) as usize,
        end_column: band_start(limit, i + 1) as usize,
        first_row: band_start(limit, j) as usize,
        end_row: band_start(limit, j + 1) as usize,
    }
}

/// Where band `k` begins.
fn band(limit: usize, k: usize) -> (b: usize)
    requires
        addressable(limit),
        k <= 3,
    ensures
        b == band_start(limit as int, k as int),
        b <= 2 * limit + 1,
{
    let chunk = (limit + 1) / 3;
    if k == 0 {
        0
    } else if k == 1 {
        chunk
    } else if k == 2 {
        2 * chunk
    } else {
        2 * limit + 1
    }
}

/// The nine tiles of a grid that reaches from `-limit` to `limit`, band of
/// columns by band of columns.
pub fn tiles(limit: usize) -> (ts: Vec<Tile>)
    requires
        addressable(limit),
    ensures
        ts@.len() == 9,
        forall|i: int, j: int|
            0 <= i < 3 && 0 <= j < 3 ==> #[trigger] ts@[3 * i + j] == tile_of(limit as int, i, j),
        forall|k: int| 0 <= k < 9 ==> (#[trigger] ts@[k]).lies_on(2 * limit + 1),
{
    let mut ts: Vec<Tile> = Vec::new();
    let mut i: usize = 0;
    while i < 3
        invariant
            i <= 3,
            addressable(limit),
            ts@.len() == 3 * i,
            forall|a: int, b: int|
                0 <= a < i && 0 <= b < 3 ==> #[trigger] ts@[3 * a + b] == tile_of(
                    limit as int,
                    a,
                    b,
                ),
            forall|k: int| 0 <= k < ts@.len() ==> (#[trigger] ts@[k]).lies_on(2 * limit + 1),
        decreases 3 - i,
    {
        let mut j: usize = 0;
        while j < 3
            invariant
                i < 3,
                j <= 3,
                addressable(limit),
                ts@.len() == 3 * i + j,
                forall|a: int, b: int|
                    0 <= a < 3 && 0 <= b < 3 && (a < i || (a == i && b < j)) ==> #[trigger] ts@[3
                        * a + b] == tile_of(limit as int, a, b),
                forall|k: int| 0 <= k < ts@.len() ==> (#[trigger] ts@[k]).lies_on(2 * limit + 1),
            decreases 3 - j,
        {
            ts.push(
                Tile {
                    first_column: band(limit, i),
                    end_column: band(limit, i + 1),
                    first_row: band(limit, j),
                    end_row: band(limit, j + 1),
                },
            );
            j += 1;
        }
        i += 1;
    }
    ts
}

/// Every cell of the grid lies in one of the nine tiles.
pub proof fn lemma_tiles_cover(limit: int, column: int, row: int)
    requires
        limit >= 0,
        2 * limit + 1 <= isize::MAX,
        0 <= column <= 2 * limit,
        0 <= row <= 2 * limit,
    ensures
        exists|i: int, j: int|
            0 <= i < 3 && 0 <= j < 3 && (#[trigger] tile_of(limit, i, j)).has(column, row),
{
    let i: int = if column < band_start(limit, 1) {
        0
    } else if column < band_start(limit, 2) {
        1
    } else {
        2
    };
    let j: int = if row < band_start(limit, 1) {
        0
    } else if row < band_start(limit, 2) {
        1
    } else {
        2
    };
    assert(tile_of(limit, i, j).has(column, row));
}

/// Whether `cells` holds, for each cell of `tile`, its probability one step
/// after `prev`.
pub open spec fn is_tile_of<A: Arithmetic>(
    cells: Seq<Seq<u64>>,
    tile: Tile,
    prev: Seq<Seq<u64>>,
    kernel: Seq<Seq<u64>>,
    field: Seq<Seq<u64>>,
    limit: int,
) -> bool {
    &&& cells.len() == tile.end_column - tile.first_column
    &&& forall|a: int|
        0 <= a < cells.len() ==> (#[trigger] cells[a]).len() == tile.end_row - tile.first_row
    &&& forall|a: int, b: int|
        0 <= a < tile.end_column - tile.first_column && 0 <= b < tile.end_row - tile.first_row
            ==> (#[trigger] cells[a][b]) == stepped::<A>(
            prev,
            kernel,
            field,
            limit,
            tile.first_column + a - limit,
            tile.first_row + b - limit,
        )
}

/// The cells of `tile` one step after `table_old`.
pub fn compute_tile<A: Arithmetic>(
    table_old: &Vec<Vec<u64>>,
    kernel: &Kernel,
    field: &Vec<Vec<u64>>,
    limit: usize,
    tile: Tile,
) -> (cells: Vec<Vec<u64>>)
    requires
        addressable(limit),
        is_square(rows(*table_old), (2 * limit + 1) as nat),
        is_square(rows(*field), (2 * limit + 1) as nat),
        kernel.wf(),
        kernel.side() % 2 == 1,
        tile.lies_on(2 * limit + 1),
    ensures
        is_tile_of::<A>(
            rows(cells),
            tile,
            rows(*table_old),
            kernel.grid(),
            rows(*field),
            limit as int,
        ),
{
    let mut cells: Vec<Vec<u64>> = Vec::new();
    let mut column = tile.first_column;
    while column < tile.end_column
        invariant
            tile.first_column <= column <= tile.end_column,
            addressable(limit),
            is_square(rows(*table_old), (2 * limit + 1) as nat),
            is_square(rows(*field), (2 * limit + 1) as nat),
            kernel.wf(),
            kernel.side() % 2 == 1,
            tile.lies_on(2 * limit + 1),
            cells@.len() == column - tile.first_column,
            forall|a: int|
                0 <= a < cells@.len() ==> (#[trigger] cells@[a])@.len() == tile.end_row
                    - tile.first_row,
            forall|a: int, b: int|
                0 <= a < cells@.len() && 0 <= b < tile.end_row - tile.first_row ==> (
                #[trigger] cells@[a]@[b]) == stepped::<A>(
                    rows(*table_old),
                    kernel.grid(),
                    rows(*field),
                    limit as int,
                    tile.first_column + a - limit,
                    tile.first_row + b - limit,
                ),
        decreases tile.end_column - column,
    {
        let mut strip: Vec<u64> = Vec::new();
        let mut row = tile.first_row;
        while row < tile.end_row
            invariant
                tile.first_column <= column < tile.end_column,
                tile.first_row <= row <= tile.end_row,
                addressable(limit),
                is_square(rows(*table_old), (2 * limit + 1) as nat),
                is_square(rows(*field), (2 * limit + 1) as nat),
                kernel.wf(),
                kernel.side() % 2 == 1,
                tile.lies_on(2 * limit + 1),
                strip@.len() == row - tile.first_row,
                forall|b: int|
                    0 <= b < strip@.len() ==> (#[trigger] strip@[b]) == stepped::<A>(
                        rows(*table_old),
                        kernel.grid(),
                        rows(*field),
                        limit as int,
                        column - limit,
                        tile.first_row + b - limit,
                    ),
            decreases tile.end_row - row,
        {
            strip.push(apply_kernel::<A>(table_old, kernel, field, limit, column, row));
            row += 1;
        }
        cells.push(strip);
        column += 1;
    }
    proof {
        assert forall|a: int, b: int|
            0 <= a < tile.end_column - tile.first_column && 0 <= b < tile.end_row
                - tile.first_row implies (#[trigger] rows(cells)[a][b]) == stepped::<A>(
            rows(*table_old),
            kernel.grid(),
            rows(*field),
            limit as int,
            tile.first_column + a - limit,
            tile.first_row + b - limit,
        ) by {
            assert(cells@[a]@[b] == rows(cells)[a][b]);
        }
    }
    cells
}

/// Writes the cells of a tile into `layer`.
pub fn merge_tile(layer: &mut Vec<Vec<u64>>, tile: Tile, cells: &Vec<Vec<u64>>)
    requires
        tile.lies_on(old(layer)@.len() as int),
        is_square(rows(*old(layer)), old(layer)@.len() as nat),
        cells@.len() == tile.end_column - tile.first_column,
        forall|a: int|
            0 <= a < cells@.len() ==> (#[trigger] rows(*cells)[a]).len() == tile.end_row
                - tile.first_row,
    ensures
        is_square(rows(*final(layer)), old(layer)@.len() as nat),
        forall|column: int, row: int|
            0 <= column < old(layer)@.len() && 0 <= row < old(layer)@.len() ==> (#[trigger] rows(
                *final(layer),
            )[column][row]) == (if tile.has(column, row) {
                rows(*cells)[column - tile.first_column][row - tile.first_row]
            } else {
                rows(*old(layer))[column][row]
            }),
{
    let ghost width = layer@.len();
    let ghost given = rows(*layer);
    let mut column = tile.first_column;
    while column < tile.end_column
        invariant
            tile.first_column <= column <= tile.end_column,
            tile.lies_on(width as int),
            layer@.len() == width,
            is_square(rows(*layer), width),
            is_square(given, width),
            cells@.len() == tile.end_column - tile.first_column,
            forall|a: int|
                0 <= a < cells@.len() ==> (#[trigger] rows(*cells)[a]).len() == tile.end_row
                    - tile.first_row,
            forall|c: int, r: int|
                0 <= c < width && 0 <= r < width ==> (#[trigger] rows(*layer)[c][r]) == (if c
                    < column && tile.has(c, r) {
                    rows(*cells)[c - tile.first_column][r - tile.first_row]
                } else {
                    given[c][r]
                }),
        decreases tile.end_column - column,
    {
        let mut row = tile.first_row;
        while row < tile.end_row
            invariant
                tile.first_column <= column < tile.end_column,
                tile.first_row <= row <= tile.end_row,
                tile.lies_on(width as int),
                layer@.len() == width,
                is_square(rows(*layer), width),
                is_square(given, width),
                cells@.len() == tile.end_column - tile.first_column,
                forall|a: int|
                    0 <= a < cells@.len() ==> (#[trigger] rows(*cells)[a]).len() == tile.end_row
                        - tile.first_row,
                forall|c: int, r: int|
                    0 <= c < width && 0 <= r < width ==> (#[trigger] rows(*layer)[c][r]) == (if (c
                        < column || (c == column && r < row)) && tile.has(c, r) {
                        rows(*cells)[c - tile.first_column][r - tile.first_row]
                    } else {
                        given[c][r]
                    }),
            decreases tile.end_row - row,
        {
            let ghost before = rows(*layer);
            assert(before[column as int].len() == width);
            assert(rows(*cells)[column - tile.first_column].len() == tile.end_row - tile.first_row);
            let value = cells[column - tile.first_column][row - tile.first_row];
            layer[column][row] = value;
            proof {
                assert forall|c: int| 0 <= c < width implies (#[trigger] rows(*layer)[c]).len()
                    == width by {
                    assert(before[c].len() == width);
                }
                assert forall|c: int, r: int| 0 <= c < width && 0 <= r < width implies (
                #[trigger] rows(*layer)[c][r]) == (if (c < column || (c == column && r < row + 1))
                    && tile.has(c, r) {
                    rows(*cells)[c - tile.first_column][r - tile.first_row]
                } else {
                    given[c][r]
                }) by {
                    assert(before[c].len() == width);
                    if c == column && r == row {
                    } else {
                        assert(rows(*layer)[c][r] == before[c][r]);
                    }
                }
            }
            row += 1;
        }
        column += 1;
    }
}

/// The layer one step after `table_old`, computed tile by tile.
pub fn next_layer_tiled<A: Arithmetic>(
    table_old: &Vec<Vec<u64>>,
    kernel: &Kernel,
    field: &Vec<Vec<u64>>,
    limit: usize,
    tiles: &Vec<Tile>,
) -> (next: Vec<Vec<u64>>)
    requires
        addressable(limit),
        is_square(rows(*table_old), (2 * limit + 1) as nat),
        is_square(rows(*field), (2 * limit + 1) as nat),
        kernel.wf(),
        kernel.side() % 2 == 1,
        tiles@.len() == 9,
        forall|i: int, j: int|
            0 <= i < 3 && 0 <= j < 3 ==> #[trigger] tiles@[3 * i + j] == tile_of(limit as int, i, j),
        forall|k: int| 0 <= k < 9 ==> (#[trigger] tiles@[k]).lies_on(2 * limit + 1),
    ensures
        follows::<A>(rows(next), rows(*table_old), kernel.grid(), rows(*field), limit as int),
{
    let ghost l = limit as int;
    let ghost width = (2 * limit + 1) as nat;
    let mut next = uniform(2 * limit + 1, 0);
    let mut k: usize = 0;
    while k < 9
        invariant
            k <= 9,
            l == limit,
            width == 2 * limit + 1,
            addressable(limit),
            is_square(rows(*table_old), width),
            is_square(rows(*field), width),
            kernel.wf(),
            kernel.side() % 2 == 1,
            tiles@.len() == 9,
            forall|n: int| 0 <= n < 9 ==> (#[trigger] tiles@[n]).lies_on(2 * limit + 1),
            next@.len() == width,
            is_square(rows(next), width),
            forall|column: int, row: int, n: int|
                0 <= column < width && 0 <= row < width && 0 <= n < k && (#[trigger] tiles@[n]).has(
                    column,
                    row,
                ) ==> (#[trigger] rows(next)[column][row]) == stepped::<A>(
                    rows(*table_old),
                    kernel.grid(),
                    rows(*field),
                    l,
                    column - l,
                    row - l,
                ),
        decreases 9 - k,
    {
        let tile = tiles[k];
        let cells = compute_tile::<A>(table_old, kernel, field, limit, tile);
        let ghost before = rows(next);
        merge_tile(&mut next, tile, &cells);
        proof {
            assert forall|column: int, row: int, n: int|
                0 <= column < width && 0 <= row < width && 0 <= n < k + 1 && (
                #[trigger] tiles@[n]).has(column, row) implies (#[trigger] rows(
                next,
            )[column][row]) == stepped::<A>(
                rows(*table_old),
                kernel.grid(),
                rows(*field),
                l,
                column - l,
                row - l,
            ) by {
                if tile.has(column, row) {
                    let a = column - tile.first_column;
                    let b = row - tile.first_row;
                    assert(rows(cells)[a][b] == stepped::<A>(
                        rows(*table_old),
                        kernel.grid(),
                        rows(*field),
                        l,
                        tile.first_column + a - l,
                        tile.first_row + b - l,
                    ));
                } else {
                    assert(rows(next)[column][row] == before[column][row]);
                }
            }
        }
        k += 1;
    }
    proof {
        assert forall|x: int, y: int| inside(l, x, y) implies #[trigger] layer_cell(
            rows(next),
            l,
            x,
            y,
        ) == stepped::<A>(rows(*table_old), kernel.grid(), rows(*field), l, x, y) by {
            lemma_tiles_cover(l, l + x, l + y);
            let (i, j) = choose|i: int, j: int|
                0 <= i < 3 && 0 <= j < 3 && (#[trigger] tile_of(l, i, j)).has(l + x, l + y);
            assert(tiles@[3 * i + j] == tile_of(l, i, j));
            assert(tiles@[3 * i + j].has(l + x, l + y));
            assert(rows(next)[l + x][l + y] == stepped::<A>(
                rows(*table_old),
                kernel.grid(),
                rows(*field),
                l,
                (l + x) - l,
                (l + y) - l,
            ));
        }
    }
    next
}

impl DynamicProgram {
    /// Fills the table as `compute` does, each step tile by tile.
    pub fn compute_tiled<A: Arithmetic>(&mut self)
        requires
            old(self).wf(),
            old(self).kernel_fits(),
        ensures
            final(self).computed::<A>(),
            final(self).time_limit == old(self).time_limit,
            final(self).kernel == old(self).kernel,
            final(self).field_probabilities == old(self).field_probabilities,
    {
        let nine = tiles(self.time_limit);
        self.table[0] = seed_layer::<A>(self.time_limit);
        proof {
            assert forall|s: int| 0 <= s <= self.time_limit implies is_square(
                #[trigger] self.layer(s),
                (2 * self.time_limit + 1) as nat,
            ) by {
                if s != 0 {
                    assert(self.layer(s) == old(self).layer(s));
                }
            }
        }
        let mut t: usize = 1;
        while t <= self.time_limit
            invariant
                1 <= t <= self.time_limit + 1,
                self.wf(),
                self.kernel_fits(),
                self.time_limit == old(self).time_limit,
                self.kernel == old(self).kernel,
                self.field_probabilities == old(self).field_probabilities,
                nine@.len() == 9,
                forall|i: int, j: int|
                    0 <= i < 3 && 0 <= j < 3 ==> #[trigger] nine@[3 * i + j] == tile_of(
                        self.limit(),
                        i,
                        j,
                    ),
                forall|k: int| 0 <= k < 9 ==> (#[trigger] nine@[k]).lies_on(2 * self.time_limit + 1),
                is_seed::<A>(self.layer(0), self.limit()),
                forall|s: int|
                    1 <= s < t ==> follows::<A>(
                        #[trigger] self.layer(s),
                        self.layer(s - 1),
                        self.kernel.grid(),
                        self.mask(),
                        self.limit(),
                    ),
            decreases self.time_limit + 1 - t,
        {
            let ghost before = *self;
            assert(is_square(self.layer(t - 1), (2 * self.time_limit + 1) as nat));
            let next = next_layer_tiled::<A>(
                &self.table[t - 1],
                &self.kernel,
                &self.field_probabilities,
                self.time_limit,
                &nine,
            );
            self.table[t] = next;
            proof {
                assert forall|s: int| 0 <= s <= self.time_limit implies is_square(
                    #[trigger] self.layer(s),
                    (2 * self.time_limit + 1) as nat,
                ) by {
                    if s != t {
                        assert(self.layer(s) == before.layer(s));
                    }
                }
                assert forall|s: int| 1 <= s < t + 1 implies follows::<A>(
                    #[trigger] self.layer(s),
                    self.layer(s - 1),
                    self.kernel.grid(),
                    self.mask(),
                    self.limit(),
                ) by {
                    if s < t {
                        assert(self.layer(s) == before.layer(s));
                        assert(self.layer(s - 1) == before.layer(s - 1));
                    }
                }
                assert(self.layer(0) == before.layer(0));
            }
            t += 1;
        }
    }
}

} // verus!
