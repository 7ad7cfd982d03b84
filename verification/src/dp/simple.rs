//! The dynamic program with one table.

use crate::arithmetic::{absorbing, null, Arithmetic};
use crate::dp::recurrence::{
    addressable, follows, inside, is_addressable, layer_cell, lemma_gathered_nothing,
    lemma_stepped_nothing, next_layer, stepped, term,
};
use crate::grid::{
    copied, copied_stack, has_shape, is_square, is_uniform, layers_of, rows, same, same_stack, shifted_index,
    uniform,
};
use crate::kernel::Kernel;
use vstd::prelude::*;

verus! {

/// Whether `layer` holds one at the origin and the all-zero word elsewhere.
pub open spec fn is_seed<A: Arithmetic>(layer: Seq<Seq<u64>>, limit: int) -> bool {
    &&& is_square(layer, (2 * limit + 1) as nat)
    &&& forall|x: int, y: int|
        inside(limit, x, y) ==> #[trigger] layer_cell(layer, limit, x, y) == (if x == 0 && y == 0 {
            A::fraction(1, 1)
        } else {
            0
        })
}

/// The layer at time zero: one at the origin, nothing elsewhere.
pub fn seed_layer<A: Arithmetic>(limit: usize) -> (layer: Vec<Vec<u64>>)
    requires
        addressable(limit),
    ensures
        is_seed::<A>(rows(layer), limit as int),
{
    let mut layer = uniform(2 * limit + 1, 0);
    assert(rows(layer)[limit as int].len() == 2 * limit + 1);
    let ghost before = rows(layer);
    layer[limit][limit] = A::ratio(1, 1);
    proof {
        let l = limit as int;
        assert forall|i: int| 0 <= i < 2 * l + 1 implies (#[trigger] rows(layer)[i]).len() == 2 * l
            + 1 by {
            assert(before[i].len() == 2 * l + 1);
        }
        assert forall|x: int, y: int| inside(l, x, y) implies #[trigger] layer_cell(
            rows(layer),
            l,
            x,
            y,
        ) == (if x == 0 && y == 0 {
            A::fraction(1, 1)
        } else {
            0
        }) by {
            assert(before[l + x][l + y] == 0);
        }
    }
    layer
}

/// A time-indexed grid of probabilities, computed with one kernel.
///
/// The grid reaches from `-time_limit` to `time_limit` in both directions, and
/// the table holds one layer for each time from zero to `time_limit`.
#[derive(Debug)]
pub struct DynamicProgram {
    /// The probabilities by time, column and row.
    pub table: Vec<Vec<Vec<u64>>>,
    /// The last time step, and the greatest coordinate.
    pub time_limit: usize,
    /// The kernel of one step.
    pub kernel: Kernel,
    /// What each cell keeps of the mass that reaches it; the all-zero word
    /// marks a barrier.
    pub field_probabilities: Vec<Vec<u64>>,
}

impl DynamicProgram {
    /// The greatest coordinate.
    pub open spec fn limit(&self) -> int {
        self.time_limit as int
    }

    /// The layer of time `t`.
    pub open spec fn layer(&self, t: int) -> Seq<Seq<u64>> {
        rows(self.table@[t])
    }

    /// The field probabilities by column and row.
    pub open spec fn mask(&self) -> Seq<Seq<u64>> {
        rows(self.field_probabilities)
    }

    /// Whether table and mask have the shape that the time limit asks for.
    pub open spec fn wf(&self) -> bool {
        &&& addressable(self.time_limit)
        &&& self.table@.len() == self.time_limit + 1
        &&& forall|t: int|
            0 <= t <= self.time_limit ==> is_square(
                #[trigger] self.layer(t),
                (2 * self.time_limit + 1) as nat,
            )
        &&& is_square(self.mask(), (2 * self.time_limit + 1) as nat)
    }

    /// Whether `(x, y)` is a cell of the grid.
    pub open spec fn covers(&self, x: int, y: int) -> bool {
        inside(self.limit(), x, y)
    }

    /// The probability of being at `(x, y)` at time `t`.
    pub open spec fn cell(&self, x: int, y: int, t: int) -> u64 {
        layer_cell(self.layer(t), self.limit(), x, y)
    }

    /// The field probability of `(x, y)`.
    pub open spec fn field(&self, x: int, y: int) -> u64 {
        layer_cell(self.mask(), self.limit(), x, y)
    }

    /// Whether the kernel can be applied: it is square and has a centre.
    pub open spec fn kernel_fits(&self) -> bool {
        &&& self.kernel.wf()
        &&& self.kernel.side() % 2 == 1
    }

    /// Whether the table holds what the recurrence gives: the seed at time
    /// zero and, at each later time, the step from the time before.
    pub open spec fn computed<A: Arithmetic>(&self) -> bool {
        &&& self.wf()
        &&& is_seed::<A>(self.layer(0), self.limit())
        &&& forall|t: int|
            1 <= t <= self.time_limit ==> follows::<A>(
                #[trigger] self.layer(t),
                self.layer(t - 1),
                self.kernel.grid(),
                self.mask(),
                self.limit(),
            )
    }

    /// Whether table and mask have the shape that the time limit asks for.
    pub fn is_wf(&self) -> (r: bool)
        ensures
            r == self.wf(),
    {
        if !is_addressable(self.time_limit) || self.table.len() != self.time_limit + 1 {
            return false;
        }
        let width = 2 * self.time_limit + 1;
        let mut t: usize = 0;
        while t <= self.time_limit
            invariant
                t <= self.time_limit + 1,
                addressable(self.time_limit),
                self.table@.len() == self.time_limit + 1,
                width == 2 * self.time_limit + 1,
                forall|s: int| 0 <= s < t ==> is_square(#[trigger] self.layer(s), width as nat),
            decreases self.time_limit + 1 - t,
        {
            if !has_shape(&self.table[t], width) {
                assert(!is_square(self.layer(t as int), width as nat));
                return false;
            }
            t += 1;
        }
        has_shape(&self.field_probabilities, width)
    }

    /// Whether the kernel can be applied: it is square and has a centre.
    pub fn kernel_is_fit(&self) -> (r: bool)
        ensures
            r == self.kernel_fits(),
    {
        self.kernel.is_wf() && self.kernel.size() % 2 == 1
    }

    /// An empty table for `time_limit` steps with the given kernel and field
    /// probabilities.
    pub fn new(time_limit: usize, kernel: Kernel, field_probabilities: Vec<Vec<u64>>) -> (dp: Self)
        requires
            addressable(time_limit),
            is_square(rows(field_probabilities), (2 * time_limit + 1) as nat),
        ensures
            dp.wf(),
            dp.time_limit == time_limit,
            dp.kernel == kernel,
            dp.field_probabilities == field_probabilities,
            forall|t: int|
                0 <= t <= time_limit ==> is_uniform(
                    #[trigger] dp.layer(t),
                    (2 * time_limit + 1) as nat,
                    0,
                ),
    {
        let mut table: Vec<Vec<Vec<u64>>> = Vec::new();
        let mut t: usize = 0;
        while t <= time_limit
            invariant
                t <= time_limit + 1,
                addressable(time_limit),
                table@.len() == t,
                forall|s: int|
                    0 <= s < t ==> is_uniform(
                        #[trigger] rows(table@[s]),
                        (2 * time_limit + 1) as nat,
                        0,
                    ),
            decreases time_limit + 1 - t,
        {
            table.push(uniform(2 * time_limit + 1, 0));
            t += 1;
        }
        DynamicProgram { table, time_limit, kernel, field_probabilities }
    }

    /// The least and the greatest coordinate of the grid.
    pub fn limits(&self) -> (l: (isize, isize))
        requires
            addressable(self.time_limit),
        ensures
            l.0 == -self.limit(),
            l.1 == self.limit(),
    {
        (-(self.time_limit as isize), self.time_limit as isize)
    }

    /// The probability of being at `(x, y)` at time `t`.
    pub fn at(&self, x: isize, y: isize, t: usize) -> (p: u64)
        requires
            self.wf(),
            self.covers(x as int, y as int),
            t <= self.time_limit,
        ensures
            p == self.cell(x as int, y as int, t as int),
    {
        let column = shifted_index(self.time_limit, x);
        let row = shifted_index(self.time_limit, y);
        assert(is_square(self.layer(t as int), (2 * self.time_limit + 1) as nat));
        assert(self.layer(t as int)[column as int].len() == 2 * self.time_limit + 1);
        self.table[t][column][row]
    }

    /// The probability of being at `(x, y)` at time `t`, or `default` if the
    /// grid has no such cell.
    pub fn at_or(&self, x: isize, y: isize, t: usize, default: u64) -> (p: u64)
        requires
            self.wf(),
            t <= self.time_limit,
        ensures
            p == (if self.covers(x as int, y as int) {
                self.cell(x as int, y as int, t as int)
            } else {
                default
            }),
    {
        let (limit_neg, limit_pos) = self.limits();
        if x >= limit_neg && x <= limit_pos && y >= limit_neg && y <= limit_pos {
            self.at(x, y, t)
        } else {
            default
        }
    }

    /// Replaces the probability of being at `(x, y)` at time `t`.
    pub fn set(&mut self, x: isize, y: isize, t: usize, val: u64)
        requires
            old(self).wf(),
            old(self).covers(x as int, y as int),
            t <= old(self).time_limit,
        ensures
            final(self).wf(),
            final(self).time_limit == old(self).time_limit,
            final(self).kernel == old(self).kernel,
            final(self).field_probabilities == old(self).field_probabilities,
            final(self).cell(x as int, y as int, t as int) == val,
            forall|i: int, j: int, s: int|
                old(self).covers(i, j) && 0 <= s <= old(self).time_limit && (i, j, s) != (
                    x as int,
                    y as int,
                    t as int,
                ) ==> final(self).cell(i, j, s) == old(self).cell(i, j, s),
    {
        let column = shifted_index(self.time_limit, x);
        let row = shifted_index(self.time_limit, y);
        assert(is_square(self.layer(t as int), (2 * self.time_limit + 1) as nat));
        assert(self.layer(t as int)[column as int].len() == 2 * self.time_limit + 1);
        self.table[t][column][row] = val;
        proof {
            let width = (2 * self.time_limit + 1) as nat;
            assert forall|s: int| 0 <= s <= self.time_limit implies is_square(
                #[trigger] self.layer(s),
                width,
            ) by {
                assert(is_square(old(self).layer(s), width));
                assert forall|a: int| 0 <= a < width implies (#[trigger] self.layer(s)[a]).len()
                    == width by {
                    assert(old(self).layer(s)[a].len() == width);
                }
            }
            assert forall|i: int, j: int, s: int|
                old(self).covers(i, j) && 0 <= s <= old(self).time_limit && (i, j, s) != (
                    x as int,
                    y as int,
                    t as int,
                ) implies self.cell(i, j, s) == old(self).cell(i, j, s) by {
                assert(is_square(old(self).layer(s), width));
                assert(old(self).layer(s)[self.limit() + i].len() == width);
            }
        }
    }

    /// The field probabilities by column and row.
    pub fn field_probabilities(&self) -> (f: Vec<Vec<u64>>)
        ensures
            rows(f) == self.mask(),
    {
        copied(&self.field_probabilities)
    }

    /// Fills the table: the seed at time zero, then step by step.  What the
    /// table held before does not matter.
    pub fn compute<A: Arithmetic>(&mut self)
        requires
            old(self).wf(),
            old(self).kernel_fits(),
        ensures
            final(self).computed::<A>(),
            final(self).time_limit == old(self).time_limit,
            final(self).kernel == old(self).kernel,
            final(self).field_probabilities == old(self).field_probabilities,
    {
        self.table[0] = seed_layer::<A>(self.time_limit);
        proof {
            assert forall|s: int| 0 <= s <= self.time_limit implies is_square(
                #[trigger] self.layer(s),
                (2 * self.time_limit + 1) as nat,
            ) by {
                if s != 0 {
                    assert(self.layer(s) == old(self).layer(s));
                }
            }
        }
        let mut t: usize = 1;
        while t <= self.time_limit
            invariant
                1 <= t <= self.time_limit + 1,
                self.wf(),
                self.kernel_fits(),
                self.time_limit == old(self).time_limit,
                self.kernel == old(self).kernel,
                self.field_probabilities == old(self).field_probabilities,
                is_seed::<A>(self.layer(0), self.limit()),
                forall|s: int|
                    1 <= s < t ==> follows::<A>(
                        #[trigger] self.layer(s),
                        self.layer(s - 1),
                        self.kernel.grid(),
                        self.mask(),
                        self.limit(),
                    ),
            decreases self.time_limit + 1 - t,
        {
            let ghost before = *self;
            assert(is_square(self.layer(t - 1), (2 * self.time_limit + 1) as nat));
            let next = next_layer::<A>(
                &self.table[t - 1],
                &self.kernel,
                &self.field_probabilities,
                self.time_limit,
            );
            self.table[t] = next;
            proof {
                assert forall|s: int| 0 <= s <= self.time_limit implies is_square(
                    #[trigger] self.layer(s),
                    (2 * self.time_limit + 1) as nat,
                ) by {
                    if s != t {
                        assert(self.layer(s) == before.layer(s));
                    }
                }
                assert forall|s: int| 1 <= s < t + 1 implies follows::<A>(
                    #[trigger] self.layer(s),
                    self.layer(s - 1),
                    self.kernel.grid(),
                    self.mask(),
                    self.limit(),
                ) by {
                    if s < t {
                        assert(self.layer(s) == before.layer(s));
                        assert(self.layer(s - 1) == before.layer(s - 1));
                    }
                }
                assert(self.layer(0) == before.layer(0));
            }
            t += 1;
        }
    }
}

/// A cell whose field probability holds no mass holds nothing at any time
/// after zero, whatever its neighbours held.
pub proof fn lemma_barrier_holds_nothing<A: Arithmetic>(dp: DynamicProgram, x: int, y: int, t: int)
    requires
        dp.computed::<A>(),
        dp.covers(x, y),
        1 <= t <= dp.time_limit,
        null::<A>(dp.field(x, y)),
    ensures
        dp.cell(x, y, t) == 0,
{
    assert(follows::<A>(dp.layer(t), dp.layer(t - 1), dp.kernel.grid(), dp.mask(), dp.limit()));
    assert(layer_cell(dp.layer(t), dp.limit(), x, y) == stepped::<A>(
        dp.layer(t - 1),
        dp.kernel.grid(),
        dp.mask(),
        dp.limit(),
        x,
        y,
    ));
}

/// Mass spreads no faster than the kernel reaches: where nothing comes of
/// nothing, a computed table holds no mass at time `t` in a cell that lies
/// more than `t` times the kernel's radius from the origin along an axis.
pub proof fn lemma_no_mass_beyond_reach<A: Arithmetic>(dp: DynamicProgram, x: int, y: int, t: int)
    requires
        dp.computed::<A>(),
        dp.kernel_fits(),
        absorbing::<A>(),
        dp.covers(x, y),
        0 <= t <= dp.time_limit,
        x > t * dp.kernel.radius() || -x > t * dp.kernel.radius() || y > t * dp.kernel.radius() || -y
            > t * dp.kernel.radius(),
    ensures
        null::<A>(dp.cell(x, y, t)),
    decreases t,
{
    let radius = dp.kernel.radius();
    let limit = dp.limit();
    if t == 0 {
        assert(0 * radius == 0) by (nonlinear_arith);
        assert(dp.cell(x, y, 0) == layer_cell(dp.layer(0), limit, x, y));
    } else {
        assert(t * radius - radius == (t - 1) * radius) by (nonlinear_arith);
        assert(dp.kernel.grid().len() as int / 2 == radius);
        assert forall|i: int, j: int|
            inside(limit, i, j) && -radius <= i - x <= radius && -radius <= j - y
                <= radius implies null::<A>(#[trigger] layer_cell(dp.layer(t - 1), limit, i, j)) by {
            lemma_no_mass_beyond_reach::<A>(dp, i, j, t - 1);
        }
        lemma_stepped_nothing::<A>(
            dp.layer(t - 1),
            dp.kernel.grid(),
            dp.mask(),
            limit,
            x,
            y,
        );
        assert(follows::<A>(dp.layer(t), dp.layer(t - 1), dp.kernel.grid(), dp.mask(), limit));
        assert(layer_cell(dp.layer(t), limit, x, y) == stepped::<A>(
            dp.layer(t - 1),
            dp.kernel.grid(),
            dp.mask(),
            limit,
            x,
            y,
        ));
    }
}

/// Whether `kernel` has three columns and knows no step along a diagonal:
/// its four corners hold no mass.
pub open spec fn is_cross<A: Arithmetic>(kernel: Seq<Seq<u64>>) -> bool {
    &&& is_square(kernel, 3)
    &&& null::<A>(kernel[0][0])
    &&& null::<A>(kernel[0][2])
    &&& null::<A>(kernel[2][0])
    &&& null::<A>(kernel[2][2])
}

/// Under a kernel that steps to the four neighbours only, mass moves one
/// cell in a step: where nothing comes of nothing, a computed table holds no
/// mass at time `t` in a cell that lies more than `t` steps from the origin.
pub proof fn lemma_no_mass_beyond_steps<A: Arithmetic>(dp: DynamicProgram, x: int, y: int, t: int)
    requires
        dp.computed::<A>(),
        is_cross::<A>(dp.kernel.grid()),
        absorbing::<A>(),
        dp.covers(x, y),
        0 <= t <= dp.time_limit,
        (if x >= 0 {
            x
        } else {
            -x
        }) + (if y >= 0 {
            y
        } else {
            -y
        }) > t,
    ensures
        null::<A>(dp.cell(x, y, t)),
    decreases t,
{
    let limit = dp.limit();
    let kernel = dp.kernel.grid();
    if t == 0 {
        assert(dp.cell(x, y, 0) == layer_cell(dp.layer(0), limit, x, y));
    } else {
        let prev = dp.layer(t - 1);
        assert forall|i: int, j: int|
            inside(limit, i, j) && -1 <= i - x <= 1 && -1 <= j - y <= 1 implies null::<A>(
            #[trigger] term::<A>(prev, kernel, limit, x, y, i, j),
        ) by {
            if i != x && j != y {
                assert(null::<A>(kernel[1 + (x - i)][1 + (y - j)]));
            } else {
                lemma_no_mass_beyond_steps::<A>(dp, i, j, t - 1);
                assert(null::<A>(layer_cell(prev, limit, i, j)));
            }
        }
        lemma_gathered_nothing::<A>(prev, kernel, limit, x, y, 3, 0);
        assert(follows::<A>(dp.layer(t), prev, kernel, dp.mask(), limit));
        assert(layer_cell(dp.layer(t), limit, x, y) == stepped::<A>(
            prev,
            kernel,
            dp.mask(),
            limit,
            x,
            y,
        ));
    }
}

/// Two layers of one shape that follow from the same layer are the same.
pub proof fn lemma_follows_unique<A: Arithmetic>(
    a: Seq<Seq<u64>>,
    b: Seq<Seq<u64>>,
    prev: Seq<Seq<u64>>,
    kernel: Seq<Seq<u64>>,
    field: Seq<Seq<u64>>,
    limit: int,
)
    requires
        limit >= 0,
        follows::<A>(a, prev, kernel, field, limit),
        follows::<A>(b, prev, kernel, field, limit),
    ensures
        a == b,
{
    assert forall|i: int| 0 <= i < 2 * limit + 1 implies #[trigger] a[i] == b[i] by {
        assert forall|j: int| 0 <= j < 2 * limit + 1 implies a[i][j] == b[i][j] by {
            assert(layer_cell(a, limit, i - limit, j - limit) == layer_cell(
                b,
                limit,
                i - limit,
                j - limit,
            ));
        }
        assert(a[i] =~= b[i]);
    }
    assert(a =~= b);
}

/// The recurrence leaves no choice: two computed programs with the same
/// time limit, kernel and field probabilities hold the same table.
pub proof fn lemma_computed_unique<A: Arithmetic>(a: DynamicProgram, b: DynamicProgram, t: int)
    requires
        a.computed::<A>(),
        b.computed::<A>(),
        a.time_limit == b.time_limit,
        a.kernel.grid() == b.kernel.grid(),
        a.mask() == b.mask(),
        0 <= t <= a.time_limit,
    ensures
        a.layer(t) == b.layer(t),
    decreases t,
{
    let limit = a.limit();
    if t == 0 {
        assert forall|i: int| 0 <= i < 2 * limit + 1 implies #[trigger] a.layer(0)[i] == b.layer(
            0,
        )[i] by {
            assert forall|j: int| 0 <= j < 2 * limit + 1 implies a.layer(0)[i][j] == b.layer(
                0,
            )[i][j] by {
                assert(layer_cell(a.layer(0), limit, i - limit, j - limit) == layer_cell(
                    b.layer(0),
                    limit,
                    i - limit,
                    j - limit,
                ));
            }
            assert(a.layer(0)[i] =~= b.layer(0)[i]);
        }
        assert(a.layer(0) =~= b.layer(0));
    } else {
        lemma_computed_unique::<A>(a, b, t - 1);
        lemma_follows_unique::<A>(
            a.layer(t),
            b.layer(t),
            a.layer(t - 1),
            a.kernel.grid(),
            a.mask(),
            limit,
        );
    }
}

impl Clone for DynamicProgram {
    fn clone(&self) -> (dp: Self)
        ensures
            dp.time_limit == self.time_limit,
            layers_of(dp.table) == layers_of(self.table),
            dp.mask() == self.mask(),
            dp.kernel.grid() == self.kernel.grid(),
            dp.kernel.names() == self.kernel.names(),
    {
        DynamicProgram {
            table: copied_stack(&self.table),
            time_limit: self.time_limit,
            kernel: self.kernel.clone(),
            field_probabilities: copied(&self.field_probabilities),
        }
    }
}

impl PartialEq for DynamicProgram {
    /// Two programs are equal if they agree in time limit, table and field
    /// probabilities, whatever their kernels.
    fn eq(&self, other: &Self) -> (r: bool) {
        self.time_limit == other.time_limit && same_stack(&self.table, &other.table) && same(
            &self.field_probabilities,
            &other.field_probabilities,
        )
    }
}

impl Eq for DynamicProgram {

}

impl vstd::std_specs::cmp::PartialEqSpecImpl for DynamicProgram {
    open spec fn obeys_eq_spec() -> bool {
        true
    }

    open spec fn eq_spec(&self, other: &Self) -> bool {
        &&& self.time_limit == other.time_limit
        &&& layers_of(self.table) == layers_of(other.table)
        &&& self.mask() == other.mask()
    }
}

} // verus!
