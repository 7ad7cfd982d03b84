//! The dynamic program with one table for each of several kernels.

use crate::arithmetic::{null, Arithmetic};
use crate::dp::recurrence::{
    addressable, apply_kernel, follows, inside, is_addressable, layer_cell, next_layer, stepped,
};
use crate::dp::simple::{is_seed, lemma_follows_unique, seed_layer};
use crate::grid::{
    copied, copied_pile, has_shape, is_square, is_uniform, piles_of, rows, same, same_pile, shifted_index,
    uniform,
};
use crate::kernel::Kernel;
use vstd::prelude::*;

verus! {

/// A time-indexed grid of probabilities for each of several kernels.
///
/// The variants share grid, time limit and field probabilities; variant
/// `v` is computed with kernel `v` alone.
#[derive(Debug)]
pub struct MultiDynamicProgram {
    /// The probabilities by time, variant, column and row.
    pub table: Vec<Vec<Vec<Vec<u64>>>>,
    /// The last time step, and the greatest coordinate.
    pub time_limit: usize,
    /// The kernel of each variant.
    pub kernels: Vec<Kernel>,
    /// What each cell keeps of the mass that reaches it; the all-zero word
    /// marks a barrier.
    pub field_probabilities: Vec<Vec<u64>>,
}

impl MultiDynamicProgram {
    /// The greatest coordinate.
    pub open spec fn limit(&self) -> int {
        self.time_limit as int
    }

    /// The number of variants.
    pub open spec fn quantity(&self) -> int {
        self.kernels@.len() as int
    }

    /// The layer of time `t` in variant `v`.
    pub open spec fn layer(&self, t: int, v: int) -> Seq<Seq<u64>> {
        rows(self.table@[t]@[v])
    }

    /// The field probabilities by column and row.
    pub open spec fn mask(&self) -> Seq<Seq<u64>> {
        rows(self.field_probabilities)
    }

    /// Whether table and mask have the shape that the time limit and the
    /// number of kernels ask for.
    pub open spec fn wf(&self) -> bool {
        &&& addressable(self.time_limit)
        &&& self.kernels@.len() <= usize::MAX
        &&& self.table@.len() == self.time_limit + 1
        &&& forall|t: int|
            0 <= t <= self.time_limit ==> (#[trigger] self.table@[t])@.len() == self.kernels@.len()
        &&& forall|t: int, v: int|
            0 <= t <= self.time_limit && 0 <= v < self.kernels@.len() ==> is_square(
                #[trigger] self.layer(t, v),
                (2 * self.time_limit + 1) as nat,
            )
        &&& is_square(self.mask(), (2 * self.time_limit + 1) as nat)
    }

    /// Whether `(x, y)` is a cell of the grid.
    pub open spec fn covers(&self, x: int, y: int) -> bool {
        inside(self.limit(), x, y)
    }

    /// The probability of being at `(x, y)` at time `t` in variant `v`.
    pub open spec fn cell(&self, x: int, y: int, t: int, v: int) -> u64 {
        layer_cell(self.layer(t, v), self.limit(), x, y)
    }

    /// The field probability of `(x, y)`.
    pub open spec fn field(&self, x: int, y: int) -> u64 {
        layer_cell(self.mask(), self.limit(), x, y)
    }

    /// Whether every kernel can be applied: it is square and has a centre.
    pub open spec fn kernels_fit(&self) -> bool {
        forall|v: int|
            0 <= v < self.kernels@.len() ==> (#[trigger] self.kernels@[v]).wf()
                && self.kernels@[v].side() % 2 == 1
    }

    /// Whether every variant holds what the recurrence gives with its kernel.
    pub open spec fn computed<A: Arithmetic>(&self) -> bool {
        &&& self.wf()
        &&& forall|v: int|
            0 <= v < self.kernels@.len() ==> is_seed::<A>(#[trigger] self.layer(0, v), self.limit())
        &&& forall|t: int, v: int|
            1 <= t <= self.time_limit && 0 <= v < self.kernels@.len() ==> follows::<A>(
                #[trigger] self.layer(t, v),
                self.layer(t - 1, v),
                self.kernels@[v].grid(),
                self.mask(),
                self.limit(),
            )
    }

    /// Whether table and mask have the shape that the time limit and the
    /// number of kernels ask for.
    pub fn is_wf(&self) -> (r: bool)
        ensures
            r == self.wf(),
    {
        let quantity = self.kernels.len();
        if !is_addressable(self.time_limit) || self.table.len() != self.time_limit + 1 {
            return false;
        }
        let width = 2 * self.time_limit + 1;
        let mut t: usize = 0;
        while t <= self.time_limit
            invariant
                t <= self.time_limit + 1,
                addressable(self.time_limit),
                quantity == self.kernels@.len(),
                self.table@.len() == self.time_limit + 1,
                width == 2 * self.time_limit + 1,
                forall|s: int| 0 <= s < t ==> (#[trigger] self.table@[s])@.len() == quantity,
                forall|s: int, v: int|
                    0 <= s < t && 0 <= v < quantity ==> is_square(
                        #[trigger] self.layer(s, v),
                        width as nat,
                    ),
            decreases self.time_limit + 1 - t,
        {
            if self.table[t].len() != quantity {
                return false;
            }
            let mut v: usize = 0;
            while v < quantity
                invariant
                    t <= self.time_limit,
                    v <= quantity,
                    quantity == self.kernels@.len(),
                    width == 2 * self.time_limit + 1,
                    self.table@.len() == self.time_limit + 1,
                    self.table@[t as int]@.len() == quantity,
                    forall|u: int|
                        0 <= u < v ==> is_square(#[trigger] self.layer(t as int, u), width as nat),
                decreases quantity - v,
            {
                if !has_shape(&self.table[t][v], width) {
                    assert(!is_square(self.layer(t as int, v as int), width as nat));
                    return false;
                }
                v += 1;
            }
            t += 1;
        }
        has_shape(&self.field_probabilities, width)
    }

    /// Whether every kernel can be applied: it is square and has a centre.
    pub fn kernels_are_fit(&self) -> (r: bool)
        ensures
            r == self.kernels_fit(),
    {
        let mut v: usize = 0;
        while v < self.kernels.len()
            invariant
                v <= self.kernels@.len(),
                forall|u: int|
                    0 <= u < v ==> (#[trigger] self.kernels@[u]).wf() && self.kernels@[u].side() % 2
                        == 1,
            decreases self.kernels@.len() - v,
        {
            if !(self.kernels[v].is_wf() && self.kernels[v].size() % 2 == 1) {
                return false;
            }
            v += 1;
        }
        true
    }

    /// An empty table for `time_limit` steps with the given kernels and field
    /// probabilities.
    pub fn new(time_limit: usize, kernels: Vec<Kernel>, field_probabilities: Vec<Vec<u64>>) -> (dp:
        Self)
        requires
            addressable(time_limit),
            is_square(rows(field_probabilities), (2 * time_limit + 1) as nat),
        ensures
            dp.wf(),
            dp.time_limit == time_limit,
            dp.kernels == kernels,
            dp.field_probabilities == field_probabilities,
            forall|t: int, v: int|
                0 <= t <= time_limit && 0 <= v < kernels@.len() ==> is_uniform(
                    #[trigger] dp.layer(t, v),
                    (2 * time_limit + 1) as nat,
                    0,
                ),
    {
        let quantity = kernels.len();
        let mut table: Vec<Vec<Vec<Vec<u64>>>> = Vec::new();
        let mut t: usize = 0;
        while t <= time_limit
            invariant
                t <= time_limit + 1,
                addressable(time_limit),
                table@.len() == t,
                forall|s: int| 0 <= s < t ==> (#[trigger] table@[s])@.len() == kernels@.len(),
                forall|s: int, v: int|
                    0 <= s < t && 0 <= v < kernels@.len() ==> is_uniform(
                        #[trigger] rows(table@[s]@[v]),
                        (2 * time_limit + 1) as nat,
                        0,
                    ),
            decreases time_limit + 1 - t,
        {
            let mut layers: Vec<Vec<Vec<u64>>> = Vec::new();
            let mut v: usize = 0;
            while v < kernels.len()
                invariant
                    v <= kernels@.len(),
                    addressable(time_limit),
                    layers@.len() == v,
                    forall|u: int|
                        0 <= u < v ==> is_uniform(
                            #[trigger] rows(layers@[u]),
                            (2 * time_limit + 1) as nat,
                            0,
                        ),
                decreases kernels@.len() - v,
            {
                layers.push(uniform(2 * time_limit + 1, 0));
                v += 1;
            }
            table.push(layers);
            t += 1;
        }
        MultiDynamicProgram { table, time_limit, kernels, field_probabilities }
    }

    /// The least and the greatest coordinate of the grid.
    pub fn limits(&self) -> (l: (isize, isize))
        requires
            addressable(self.time_limit),
        ensures
            l.0 == -self.limit(),
            l.1 == self.limit(),
    {
        (-(self.time_limit as isize), self.time_limit as isize)
    }

    /// The number of variants.
    pub fn variants(&self) -> (n: usize)
        ensures
            n == self.quantity(),
    {
        self.kernels.len()
    }

    /// The probability of being at `(x, y)` at time `t` in variant `variant`.
    pub fn at(&self, x: isize, y: isize, t: usize, variant: usize) -> (p: u64)
        requires
            self.wf(),
            self.covers(x as int, y as int),
            t <= self.time_limit,
            variant < self.quantity(),
        ensures
            p == self.cell(x as int, y as int, t as int, variant as int),
    {
        let column = shifted_index(self.time_limit, x);
        let row = shifted_index(self.time_limit, y);
        assert(self.table@[t as int]@.len() == self.kernels@.len());
        assert(is_square(self.layer(t as int, variant as int), (2 * self.time_limit + 1) as nat));
        assert(self.layer(t as int, variant as int)[column as int].len() == 2 * self.time_limit + 1);
        self.table[t][variant][column][row]
    }

    /// The probability of being at `(x, y)` at time `t` in variant `variant`,
    /// or `default` if the grid has no such cell.
    pub fn at_or(&self, x: isize, y: isize, t: usize, variant: usize, default: u64) -> (p: u64)
        requires
            self.wf(),
            t <= self.time_limit,
            variant < self.quantity(),
        ensures
            p == (if self.covers(x as int, y as int) {
                self.cell(x as int, y as int, t as int, variant as int)
            } else {
                default
            }),
    {
        let (limit_neg, limit_pos) = self.limits();
        if x >= limit_neg && x <= limit_pos && y >= limit_neg && y <= limit_pos {
            self.at(x, y, t, variant)
        } else {
            default
        }
    }

    /// Replaces the probability of being at `(x, y)` at time `t` in variant
    /// `variant`.
    pub fn set(&mut self, x: isize, y: isize, t: usize, variant: usize, val: u64)
        requires
            old(self).wf(),
            old(self).covers(x as int, y as int),
            t <= old(self).time_limit,
            variant < old(self).quantity(),
        ensures
            final(self).wf(),
            final(self).time_limit == old(self).time_limit,
            final(self).kernels == old(self).kernels,
            final(self).field_probabilities == old(self).field_probabilities,
            final(self).cell(x as int, y as int, t as int, variant as int) == val,
            forall|i: int, j: int, s: int, v: int|
                old(self).covers(i, j) && 0 <= s <= old(self).time_limit && 0 <= v < old(self).quantity() && (i, j, s, v) != (x as int, y as int, t as int, variant as int)
                    ==> final(self).cell(i, j, s, v) == old(self).cell(i, j, s, v),
            forall|s: int, v: int|
                0 <= s <= old(self).time_limit && 0 <= v < old(self).quantity() && (s, v) != (
                    t as int,
                    variant as int,
                ) ==> #[trigger] final(self).layer(s, v) == old(self).layer(s, v),
    {
        let column = shifted_index(self.time_limit, x);
        let row = shifted_index(self.time_limit, y);
        let ghost width = (2 * self.time_limit + 1) as nat;
        assert(self.table@[t as int]@.len() == self.kernels@.len());
        assert(is_square(self.layer(t as int, variant as int), width));
        assert(self.layer(t as int, variant as int)[column as int].len() == width);
        self.table[t][variant][column][row] = val;
        proof {
            assert forall|s: int| 0 <= s <= self.time_limit implies (#[trigger] self.table@[s])@.len()
                == self.kernels@.len() by {
                assert(old(self).table@[s]@.len() == old(self).kernels@.len());
            }
            assert forall|s: int, v: int|
                0 <= s <= self.time_limit && 0 <= v < self.kernels@.len() implies is_square(
                #[trigger] self.layer(s, v),
                width,
            ) by {
                assert(old(self).table@[s]@.len() == old(self).kernels@.len());
                assert(is_square(old(self).layer(s, v), width));
                assert forall|a: int| 0 <= a < width implies (#[trigger] self.layer(s, v)[a]).len()
                    == width by {
                    assert(old(self).layer(s, v)[a].len() == width);
                }
            }
            assert forall|s: int, v: int|
                0 <= s <= old(self).time_limit && 0 <= v < old(self).quantity() && (s, v) != (
                    t as int,
                    variant as int,
                ) implies #[trigger] self.layer(s, v) == old(self).layer(s, v) by {
                assert(old(self).table@[s]@.len() == old(self).kernels@.len());
            }
            assert forall|i: int, j: int, s: int, v: int|
                old(self).covers(i, j) && 0 <= s <= old(self).time_limit && 0 <= v < old(self).quantity() && (i, j, s, v) != (
                    x as int,
                    y as int,
                    t as int,
                    variant as int,
                ) implies self.cell(i, j, s, v) == old(self).cell(i, j, s, v) by {
                assert(old(self).table@[s]@.len() == old(self).kernels@.len());
                assert(is_square(old(self).layer(s, v), width));
                assert(old(self).layer(s, v)[self.limit() + i].len() == width);
            }
        }
    }

    /// The field probabilities by column and row.
    pub fn field_probabilities(&self) -> (f: Vec<Vec<u64>>)
        ensures
            rows(f) == self.mask(),
    {
        copied(&self.field_probabilities)
    }

    /// Fills every variant: the seed at time zero, then step by step.
    pub fn compute<A: Arithmetic>(&mut self)
        requires
            old(self).wf(),
            old(self).kernels_fit(),
        ensures
            final(self).computed::<A>(),
            final(self).time_limit == old(self).time_limit,
            final(self).kernels == old(self).kernels,
            final(self).field_probabilities == old(self).field_probabilities,
    {
        let quantity = self.kernels.len();
        let ghost width = (2 * self.time_limit + 1) as nat;
        let mut t: usize = 0;
        while t <= self.time_limit
            invariant
                t <= self.time_limit + 1,
                self.wf(),
                self.kernels_fit(),
                quantity == self.kernels@.len(),
                width == 2 * self.time_limit + 1,
                self.time_limit == old(self).time_limit,
                self.kernels == old(self).kernels,
                self.field_probabilities == old(self).field_probabilities,
                forall|v: int|
                    0 <= v < quantity && t > 0 ==> is_seed::<A>(
                        #[trigger] self.layer(0, v),
                        self.limit(),
                    ),
                forall|s: int, v: int|
                    1 <= s < t && 0 <= v < quantity ==> follows::<A>(
                        #[trigger] self.layer(s, v),
                        self.layer(s - 1, v),
                        self.kernels@[v].grid(),
                        self.mask(),
                        self.limit(),
                    ),
            decreases self.time_limit + 1 - t,
        {
            let mut v: usize = 0;
            while v < quantity
                invariant
                    t <= self.time_limit,
                    v <= quantity,
                    self.wf(),
                    self.kernels_fit(),
                    quantity == self.kernels@.len(),
                    width == 2 * self.time_limit + 1,
                    self.time_limit == old(self).time_limit,
                    self.kernels == old(self).kernels,
                    self.field_probabilities == old(self).field_probabilities,
                    forall|u: int|
                        0 <= u < quantity && (t > 0 || u < v) ==> is_seed::<A>(
                            #[trigger] self.layer(0, u),
                            self.limit(),
                        ),
                    forall|s: int, u: int|
                        1 <= s <= t && 0 <= u < quantity && (s < t || u < v) ==> follows::<A>(
                            #[trigger] self.layer(s, u),
                            self.layer(s - 1, u),
                            self.kernels@[u].grid(),
                            self.mask(),
                            self.limit(),
                        ),
                decreases quantity - v,
            {
                let ghost before = *self;
                assert(self.table@[t as int]@.len() == self.kernels@.len());
                let next = if t == 0 {
                    seed_layer::<A>(self.time_limit)
                } else {
                    assert(self.table@[t - 1]@.len() == self.kernels@.len());
                    assert(is_square(self.layer(t - 1, v as int), width));
                    assert(self.kernels@[v as int].wf());
                    next_layer::<A>(
                        &self.table[t - 1][v],
                        &self.kernels[v],
                        &self.field_probabilities,
                        self.time_limit,
                    )
                };
                self.table[t][v] = next;
                proof {
                    assert forall|s: int| 0 <= s <= self.time_limit implies (
                    #[trigger] self.table@[s])@.len() == self.kernels@.len() by {
                        assert(before.table@[s]@.len() == before.kernels@.len());
                    }
                    assert forall|s: int, u: int|
                        0 <= s <= self.time_limit && 0 <= u < quantity && (s, u) != (
                            t as int,
                            v as int,
                        ) implies #[trigger] self.layer(s, u) == before.layer(s, u) by {
                        assert(before.table@[s]@.len() == before.kernels@.len());
                    }
                    assert forall|s: int, u: int|
                        0 <= s <= self.time_limit && 0 <= u < quantity implies is_square(
                        #[trigger] self.layer(s, u),
                        width,
                    ) by {
                        if (s, u) != (t as int, v as int) {
                            assert(self.layer(s, u) == before.layer(s, u));
                            assert(is_square(before.layer(s, u), width));
                        }
                    }
                    assert forall|u: int|
                        0 <= u < quantity && (t > 0 || u < v + 1) implies is_seed::<A>(
                        #[trigger] self.layer(0, u),
                        self.limit(),
                    ) by {
                        if (0int, u) != (t as int, v as int) {
                            assert(self.layer(0, u) == before.layer(0, u));
                        }
                    }
                    assert forall|s: int, u: int|
                        1 <= s <= t && 0 <= u < quantity && (s < t || u < v + 1) implies follows::<
                            A,
                        >(
                        #[trigger] self.layer(s, u),
                        self.layer(s - 1, u),
                        self.kernels@[u].grid(),
                        self.mask(),
                        self.limit(),
                    ) by {
                        assert(self.layer(s - 1, u) == before.layer(s - 1, u));
                        if (s, u) != (t as int, v as int) {
                            assert(self.layer(s, u) == before.layer(s, u));
                        }
                    }
                }
                v += 1;
            }
            t += 1;
        }
    }

    /// Writes, for every variant, the probability of `(x, y)` at time `t`
    /// as one step from the layer of time `t - 1`.
    pub fn apply_kernels_at<A: Arithmetic>(&mut self, x: isize, y: isize, t: usize)
        requires
            old(self).wf(),
            old(self).kernels_fit(),
            old(self).covers(x as int, y as int),
            1 <= t <= old(self).time_limit,
        ensures
            final(self).wf(),
            final(self).time_limit == old(self).time_limit,
            final(self).kernels == old(self).kernels,
            final(self).field_probabilities == old(self).field_probabilities,
            forall|v: int|
                0 <= v < old(self).quantity() ==> #[trigger] final(self).cell(
                    x as int,
                    y as int,
                    t as int,
                    v,
                ) == stepped::<A>(
                    old(self).layer(t - 1, v),
                    old(self).kernels@[v].grid(),
                    old(self).mask(),
                    old(self).limit(),
                    x as int,
                    y as int,
                ),
            forall|i: int, j: int, s: int, v: int|
                old(self).covers(i, j) && 0 <= s <= old(self).time_limit && 0 <= v < old(self).quantity() && (i, j, s) != (x as int, y as int, t as int) ==> final(self).cell(
                    i,
                    j,
                    s,
                    v,
                ) == old(self).cell(i, j, s, v),
    {
        let column = shifted_index(self.time_limit, x);
        let row = shifted_index(self.time_limit, y);
        let quantity = self.kernels.len();
        let ghost width = (2 * self.time_limit + 1) as nat;
        let mut v: usize = 0;
        while v < quantity
            invariant
                v <= quantity,
                quantity == self.kernels@.len(),
                width == 2 * self.time_limit + 1,
                self.wf(),
                self.kernels_fit(),
                self.covers(x as int, y as int),
                column == self.time_limit + x,
                row == self.time_limit + y,
                1 <= t <= self.time_limit,
                self.time_limit == old(self).time_limit,
                self.kernels == old(self).kernels,
                self.field_probabilities == old(self).field_probabilities,
                forall|u: int|
                    0 <= u < quantity ==> #[trigger] self.layer(t - 1, u) == old(self).layer(
                        t - 1,
                        u,
                    ),
                forall|u: int|
                    0 <= u < v ==> #[trigger] self.cell(x as int, y as int, t as int, u)
                        == stepped::<A>(
                        old(self).layer(t - 1, u),
                        old(self).kernels@[u].grid(),
                        old(self).mask(),
                        old(self).limit(),
                        x as int,
                        y as int,
                    ),
                forall|i: int, j: int, s: int, u: int|
                    self.covers(i, j) && 0 <= s <= self.time_limit && 0 <= u < quantity && ((i, j, s)
                        != (x as int, y as int, t as int) || u >= v) ==> self.cell(i, j, s, u)
                        == old(self).cell(i, j, s, u),
            decreases quantity - v,
        {
            let ghost before = *self;
            assert(self.table@[t - 1]@.len() == self.kernels@.len());
            assert(is_square(self.layer(t - 1, v as int), width));
            assert(self.kernels@[v as int].wf());
            let p = apply_kernel::<A>(
                &self.table[t - 1][v],
                &self.kernels[v],
                &self.field_probabilities,
                self.time_limit,
                column,
                row,
            );
            self.set(x, y, t, v, p);
            proof {
                assert forall|u: int| 0 <= u < quantity implies #[trigger] self.layer(t - 1, u)
                    == old(self).layer(t - 1, u) by {
                    assert(self.layer(t - 1, u) == before.layer(t - 1, u));
                }
                assert forall|u: int| 0 <= u < v + 1 implies #[trigger] self.cell(
                    x as int,
                    y as int,
                    t as int,
                    u,
                ) == stepped::<A>(
                    old(self).layer(t - 1, u),
                    old(self).kernels@[u].grid(),
                    old(self).mask(),
                    old(self).limit(),
                    x as int,
                    y as int,
                ) by {
                    if u < v {
                        assert(self.cell(x as int, y as int, t as int, u) == before.cell(
                            x as int,
                            y as int,
                            t as int,
                            u,
                        ));
                    }
                }
            }
            v += 1;
        }
    }
}

/// A cell whose field probability holds no mass holds nothing at any time
/// after zero in any variant, whatever its neighbours held.
pub proof fn lemma_barrier_holds_nothing_in_variants<A: Arithmetic>(
    dp: MultiDynamicProgram,
    x: int,
    y: int,
    t: int,
    v: int,
)
    requires
        dp.computed::<A>(),
        dp.covers(x, y),
        1 <= t <= dp.time_limit,
        0 <= v < dp.quantity(),
        null::<A>(dp.field(x, y)),
    ensures
        dp.cell(x, y, t, v) == 0,
{
    assert(follows::<A>(
        dp.layer(t, v),
        dp.layer(t - 1, v),
        dp.kernels@[v].grid(),
        dp.mask(),
        dp.limit(),
    ));
    assert(layer_cell(dp.layer(t, v), dp.limit(), x, y) == stepped::<A>(
        dp.layer(t - 1, v),
        dp.kernels@[v].grid(),
        dp.mask(),
        dp.limit(),
        x,
        y,
    ));
}

/// The recurrence leaves no choice: two computed programs with the same
/// time limit, kernels and field probabilities hold the same tables.
pub proof fn lemma_computed_variants_unique<A: Arithmetic>(
    a: MultiDynamicProgram,
    b: MultiDynamicProgram,
    t: int,
    v: int,
)
    requires
        a.computed::<A>(),
        b.computed::<A>(),
        a.time_limit == b.time_limit,
        a.kernels@.len() == b.kernels@.len(),
        0 <= v < a.quantity(),
        a.kernels@[v].grid() == b.kernels@[v].grid(),
        a.mask() == b.mask(),
        0 <= t <= a.time_limit,
    ensures
        a.layer(t, v) == b.layer(t, v),
    decreases t,
{
    let limit = a.limit();
    if t == 0 {
        assert(is_seed::<A>(a.layer(0, v), limit));
        assert(is_seed::<A>(b.layer(0, v), limit));
        assert forall|i: int| 0 <= i < 2 * limit + 1 implies #[trigger] a.layer(0, v)[i]
            == b.layer(0, v)[i] by {
            assert forall|j: int| 0 <= j < 2 * limit + 1 implies a.layer(0, v)[i][j] == b.layer(
                0,
                v,
            )[i][j] by {
                assert(layer_cell(a.layer(0, v), limit, i - limit, j - limit) == layer_cell(
                    b.layer(0, v),
                    limit,
                    i - limit,
                    j - limit,
                ));
            }
            assert(a.layer(0, v)[i] =~= b.layer(0, v)[i]);
        }
        assert(a.layer(0, v) =~= b.layer(0, v));
    } else {
        lemma_computed_variants_unique::<A>(a, b, t - 1, v);
        lemma_follows_unique::<A>(
            a.layer(t, v),
            b.layer(t, v),
            a.layer(t - 1, v),
            a.kernels@[v].grid(),
            a.mask(),
            limit,
        );
    }
}

impl Clone for MultiDynamicProgram {
    fn clone(&self) -> (dp: Self)
        ensures
            dp.time_limit == self.time_limit,
            piles_of(dp.table) == piles_of(self.table),
            dp.mask() == self.mask(),
            dp.kernels@.len() == self.kernels@.len(),
            forall|v: int|
                0 <= v < self.kernels@.len() ==> (#[trigger] dp.kernels@[v]).grid()
                    == self.kernels@[v].grid() && dp.kernels@[v].names() == self.kernels@[v].names(),
    {
        let mut kernels: Vec<Kernel> = Vec::new();
        let mut v: usize = 0;
        while v < self.kernels.len()
            invariant
                v <= self.kernels@.len(),
                kernels@.len() == v,
                forall|u: int|
                    0 <= u < v ==> (#[trigger] kernels@[u]).grid() == self.kernels@[u].grid()
                        && kernels@[u].names() == self.kernels@[u].names(),
            decreases self.kernels@.len() - v,
        {
            kernels.push(self.kernels[v].clone());
            v += 1;
        }
        MultiDynamicProgram {
            table: copied_pile(&self.table),
            time_limit: self.time_limit,
            kernels,
            field_probabilities: copied(&self.field_probabilities),
        }
    }
}

impl PartialEq for MultiDynamicProgram {
    /// Two programs are equal if they agree in time limit, table and field
    /// probabilities, whatever their kernels.
    fn eq(&self, other: &Self) -> (r: bool) {
        self.time_limit == other.time_limit && same_pile(&self.table, &other.table) && same(
            &self.field_probabilities,
            &other.field_probabilities,
        )
    }
}

impl Eq for MultiDynamicProgram {

}

impl vstd::std_specs::cmp::PartialEqSpecImpl for MultiDynamicProgram {
    open spec fn obeys_eq_spec() -> bool {
        true
    }

    open spec fn eq_spec(&self, other: &Self) -> bool {
        &&& self.time_limit == other.time_limit
        &&& piles_of(self.table) == piles_of(other.table)
        &&& self.mask() == other.mask()
    }
}

} // verus!
