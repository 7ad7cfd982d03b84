//! The land-cover walker: one table, and a longest step that depends on the
//! kind of land under the walker.

use crate::arithmetic::{is_null, null, Arithmetic};
use crate::dataset::point::XYPoint;
use crate::dp::simple::DynamicProgram;
use crate::dp::DynamicProgramPool;
use crate::dp::recurrence::{addressable, inside};
use crate::grid::{is_square, shifted_index};
use crate::kernel::Kernel;
use crate::walk::Walk;
use crate::walker::multi_step::{square, square_moves};
use crate::walker::{
    all_answer, backtracked, choosable, conclude, leads, lemma_backtracked_step,
    lemma_paced_strides, lemma_way, paced, point, reaches, step_back, strides, stuck, supported,
    taken, Sampler, Walker, WalkerError,
};
use std::collections::HashMap;
use vstd::prelude::*;

verus! {

broadcast use vstd::std_specs::hash::group_hash_axioms;

/// Samples walks from a program with one table.  A step may lead to any cell
/// of the square that reaches as far as the land cover of the current cell
/// allows.
#[derive(Debug)]
pub struct LandCoverWalker {
    /// The longest step for each kind of land cover.
    pub max_step_sizes: HashMap<usize, usize>,
    /// The kind of land cover by column and row; the origin is in the middle.
    pub land_cover: Vec<Vec<usize>>,
    /// The kernel with which the table was computed.
    pub kernel: Kernel,
}

impl LandCoverWalker {
    /// A walker on the raster `land_cover` with the longest steps
    /// `max_step_sizes`, for a table that was computed with `kernel`.
    pub fn new(
        max_step_sizes: HashMap<usize, usize>,
        land_cover: Vec<Vec<usize>>,
        kernel: Kernel,
    ) -> (w: Self)
        ensures
            w.max_step_sizes == max_step_sizes,
            w.land_cover == land_cover,
            w.kernel == kernel,
    {
        Self { max_step_sizes, land_cover, kernel }
    }

    /// The column, and row, of the origin in the raster of land cover.
    pub open spec fn centre(&self) -> int {
        self.land_cover@.len() as int / 2
    }

    /// Whether the raster of land cover has a cell for `(x, y)`.
    pub open spec fn charted(&self, x: int, y: int) -> bool {
        &&& 0 <= self.centre() + x < self.land_cover@.len()
        &&& 0 <= self.centre() + y < self.land_cover@[self.centre() + x]@.len()
    }

    /// The kind of land cover at `(x, y)`.
    pub open spec fn cover(&self, x: int, y: int) -> usize {
        self.land_cover@[self.centre() + x]@[self.centre() + y]
    }

    /// Whether the walker can work on a grid that reaches `limit` cells from
    /// the origin: the raster covers the grid, every kind of land cover on it
    /// has a longest step, and the kernel has a weight for every such step.
    pub open spec fn suits(&self, limit: int) -> bool {
        &&& self.kernel.wf()
        &&& self.kernel.side() % 2 == 1
        &&& self.kernel.radius() + limit < isize::MAX
        &&& forall|x: int, y: int| #[trigger] inside(limit, x, y) ==> self.charted(x, y)
        &&& forall|x: int, y: int| #[trigger]
            inside(limit, x, y) ==> self.max_step_sizes@.contains_key(self.cover(x, y))
                && self.max_step_sizes@[self.cover(x, y)] <= self.kernel.radius()
    }

    /// Whether the walker can work on a grid that reaches `limit` cells from
    /// the origin.
    pub fn is_suited(&self, limit: usize) -> (r: bool)
        requires
            addressable(limit),
        ensures
            r == self.suits(limit as int),
    {
        if !(self.kernel.is_wf() && self.kernel.size() % 2 == 1) {
            return false;
        }
        let radius = self.kernel.size() / 2;
        if radius >= isize::MAX as usize - limit {
            return false;
        }
        let centre = self.land_cover.len() / 2;
        let bound = limit as isize;
        let ghost l = limit as int;
        let mut x: isize = -bound;
        while x <= bound
            invariant
                -bound <= x <= bound + 1,
                bound == limit,
                l == limit,
                addressable(limit),
                centre == self.centre(),
                radius == self.kernel.radius(),
                forall|i: int, j: int|
                    -l <= i < x && -l <= j <= l ==> #[trigger] self.charted(i, j)
                        && self.max_step_sizes@.contains_key(self.cover(i, j))
                        && self.max_step_sizes@[self.cover(i, j)] <= radius,
            decreases bound + 1 - x,
        {
            let mut y: isize = -bound;
            while y <= bound
                invariant
                    -bound <= x <= bound,
                    -bound <= y <= bound + 1,
                    bound == limit,
                    l == limit,
                    addressable(limit),
                    centre == self.centre(),
                    radius == self.kernel.radius(),
                    forall|i: int, j: int|
                        -l <= i <= l && -l <= j <= l && (i < x || (i == x && j < y))
                            ==> #[trigger] self.charted(i, j) && self.max_step_sizes@.contains_key(
                            self.cover(i, j),
                        ) && self.max_step_sizes@[self.cover(i, j)] <= radius,
                decreases bound + 1 - y,
            {
                let fits = match Self::raster_index(centre, x, self.land_cover.len()) {
                    Some(column) => match Self::raster_index(
                        centre,
                        y,
                        self.land_cover[column].len(),
                    ) {
                        Some(row) => match self.max_step_sizes.get(&self.land_cover[column][row]) {
                            Some(m) => *m <= radius,
                            None => false,
                        },
                        None => false,
                    },
                    None => false,
                };
                if !fits {
                    assert(inside(l, x as int, y as int));
                    assert(!(self.charted(x as int, y as int) && self.max_step_sizes@.contains_key(
                        self.cover(x as int, y as int),
                    ) && self.max_step_sizes@[self.cover(x as int, y as int)] <= radius));
                    return false;
                }
                y += 1;
            }
            x += 1;
        }
        assert forall|i: int, j: int| #[trigger] inside(l, i, j) implies self.charted(i, j) by {}
        true
    }

    /// The index `centre + d`, if it is less than `len`.
    fn raster_index(centre: usize, d: isize, len: usize) -> (r: Option<usize>)
        ensures
            r is Some <==> 0 <= centre + d < len,
            r matches Some(i) ==> i == centre + d,
    {
        if d >= 0 {
            if (d as usize) < len && centre < len - (d as usize) {
                Some(centre + d as usize)
            } else {
                None
            }
        } else {
            let back: usize = (-(d + 1)) as usize;
            if back < centre && centre - back - 1 < len {
                Some(centre - back - 1)
            } else {
                None
            }
        }
    }

    /// The longest step from `(x, y)`.
    fn longest_step(&self, x: isize, y: isize, limit: Ghost<int>) -> (m: usize)
        requires
            self.suits(limit@),
            inside(limit@, x as int, y as int),
        ensures
            m == self.max_step_sizes@[self.cover(x as int, y as int)],
            m <= self.kernel.radius(),
    {
        assert(self.charted(x as int, y as int));
        let centre = self.land_cover.len() / 2;
        let column = shifted_index(centre, x);
        let row = shifted_index(centre, y);
        let cover = self.land_cover[column][row];
        match self.max_step_sizes.get(&cover) {
            Some(m) => *m,
            None => 0,
        }
    }

    /// The longest step from the cell `(x, y)`.
    pub open spec fn longest(&self, x: int, y: int) -> usize {
        self.max_step_sizes@[self.cover(x, y)]
    }

    /// Whether the step between `earlier` and `later` is one that the walker
    /// takes: it is no longer along either axis than the land cover of
    /// `later` allows and the kernel reaches, and it may have been taken on
    /// the way back at the time `t` of `later`.
    pub open spec fn link<A: Arithmetic>(&self, dp: DynamicProgram) -> spec_fn(
        XYPoint,
        XYPoint,
        int,
    ) -> bool {
        |earlier: XYPoint, later: XYPoint, t: int|
            {
                let longest = self.longest(later.x as int, later.y as int);
                &&& -longest <= earlier.x - later.x <= longest
                &&& -longest <= earlier.y - later.y <= longest
                &&& -self.kernel.radius() <= earlier.x - later.x <= self.kernel.radius()
                &&& -self.kernel.radius() <= earlier.y - later.y <= self.kernel.radius()
                &&& taken::<A>(
                    dp.layer(t - 1),
                    dp.layer(t),
                    dp.limit(),
                    self.kernel,
                    true,
                    earlier,
                    later,
                )
            }
    }

    /// Whether the way back stalls at the target: no cell of the square
    /// that the land cover of the target allows has a weight that holds
    /// mass.
    pub open spec fn stalls<A: Arithmetic>(
        &self,
        dp: DynamicProgram,
        to_x: int,
        to_y: int,
        time_steps: int,
    ) -> bool {
        stuck::<A>(
            dp.layer(time_steps - 1),
            dp.layer(time_steps),
            dp.limit(),
            self.kernel,
            square(self.longest(to_x, to_y)),
            true,
            to_x,
            to_y,
        )
    }

    /// Whether the walker can be asked for a walk on `dp` to `(to_x, to_y)`
    /// in `time_steps` steps: a program with one table has the shape of its
    /// time limit, the walker suits it, and target and time lie on it.
    pub open spec fn admits(
        &self,
        dp: DynamicProgramPool,
        to_x: int,
        to_y: int,
        time_steps: int,
    ) -> bool {
        dp is Single ==> dp.wf() && self.suits(dp.limit()) && reaches(dp, to_x, to_y, time_steps)
    }

    /// Whether `r` is an answer that the walker may give when it is asked
    /// for a walk on `dp` to `(to_x, to_y)` in `time_steps` steps.
    ///
    /// A program with several tables is refused.  A target that holds no mass
    /// has no path.  From a target that holds mass, a walk of no step is the
    /// origin alone, if the target is the origin, and else inconsistent; and
    /// a walk of some steps is inconsistent if the way back stalls at the
    /// target.  A walk that is returned leads from the origin to the target,
    /// every point of it held mass at its time, and every step of it is
    /// linked.
    pub open spec fn answers<A: Arithmetic>(
        &self,
        dp: DynamicProgramPool,
        to_x: int,
        to_y: int,
        time_steps: int,
        r: Result<Walk, WalkerError>,
    ) -> bool {
        match dp {
            DynamicProgramPool::Multiple(_) => r == Err::<Walk, _>(
                WalkerError::RequiresSingleDynamicProgram,
            ),
            DynamicProgramPool::Single(single) => {
                let massless = null::<A>(single.cell(to_x, to_y, time_steps));
                &&& massless <==> r == Err::<Walk, _>(WalkerError::NoPathExists)
                &&& !massless && time_steps == 0 ==> ((to_x == 0 && to_y == 0) <==> r is Ok)
                &&& !massless && time_steps == 0 && !(to_x == 0 && to_y == 0) ==> r == Err::<Walk, _>(
                    WalkerError::InconsistentPath,
                )
                &&& !massless && time_steps > 0 && self.stalls::<A>(single, to_x, to_y, time_steps)
                    ==> r == Err::<Walk, _>(WalkerError::InconsistentPath)
                &&& r matches Ok(walk) ==> {
                    &&& leads(walk@, to_x, to_y, time_steps)
                    &&& strides(walk@, self.kernel.radius())
                    &&& paced(walk@, self.link::<A>(single))
                    &&& supported::<A>(walk@, single)
                }
                &&& r matches Err(e) ==> e == WalkerError::NoPathExists || e
                    == WalkerError::InconsistentPath || e
                    == WalkerError::RandomDistributionError
            },
        }
    }

    /// Samples one walk from the origin to `(to_x, to_y)` in `time_steps` steps.
    pub fn generate_path<A: Arithmetic, S: Sampler>(
        &self,
        dp: &DynamicProgramPool,
        to_x: isize,
        to_y: isize,
        time_steps: usize,
        sampler: &mut S,
    ) -> (r: Result<Walk, WalkerError>)
        requires
            self.admits(*dp, to_x as int, to_y as int, time_steps as int),
        ensures
            self.answers::<A>(*dp, to_x as int, to_y as int, time_steps as int, r),
    {
        let single = match dp {
            DynamicProgramPool::Single(single) => single,
            DynamicProgramPool::Multiple(_) => {
                return Err(WalkerError::RequiresSingleDynamicProgram);
            },
        };
        if is_null::<A>(single.at(to_x, to_y, time_steps)) {
            return Err(WalkerError::NoPathExists);
        }
        let radius = self.kernel.size() / 2;
        let mut reversed: Vec<XYPoint> = Vec::new();
        let mut x = to_x;
        let mut y = to_y;
        let mut t = time_steps;
        while t > 0
            invariant
                *dp == DynamicProgramPool::Single(*single),
                !null::<A>(single.cell(to_x as int, to_y as int, time_steps as int)),
                self.suits(single.limit()),
                radius == self.kernel.radius(),
                t < time_steps ==> !self.stalls::<A>(
                    *single,
                    to_x as int,
                    to_y as int,
                    time_steps as int,
                ),
                backtracked::<A>(
                    *single,
                    reversed@,
                    x as int,
                    y as int,
                    t as int,
                    to_x as int,
                    to_y as int,
                    time_steps as int,
                    self.link::<A>(*single),
                ),
            decreases t,
        {
            let max_step_size = self.longest_step(x, y, Ghost(single.limit()));
            let moves = square_moves(max_step_size);
            assert(is_square(single.layer(t as int), (2 * single.time_limit + 1) as nat));
            assert(is_square(single.layer(t - 1), (2 * single.time_limit + 1) as nat));
            let chosen = match step_back::<A, S>(
                &single.table[t - 1],
                &single.table[t],
                single.time_limit,
                &self.kernel,
                &moves,
                true,
                x,
                y,
                sampler,
            ) {
                Ok(chosen) => chosen,
                Err(e) => {
                    return Err(e);
                },
            };
            let (dx, dy) = moves[chosen];
            proof {
                assert(choosable::<A>(
                    single.layer(t - 1),
                    single.layer(t as int),
                    single.limit(),
                    self.kernel,
                    moves@,
                    true,
                    x as int,
                    y as int,
                    chosen as int,
                ));
                assert(self.link::<A>(*single)(point(x + dx, y + dy), point(x as int, y as int), t as int));
                lemma_backtracked_step::<A>(
                    *single,
                    reversed@,
                    x as int,
                    y as int,
                    t as int,
                    to_x as int,
                    to_y as int,
                    time_steps as int,
                    self.link::<A>(*single),
                    x + dx,
                    y + dy,
                );
            }
            reversed.push(XYPoint { x: x as i64, y: y as i64 });
            x = x + dx;
            y = y + dy;
            t = t - 1;
        }
        match conclude(&reversed, x, y) {
            Ok(walk) => {
                proof {
                    lemma_way::<A>(
                        *single,
                        reversed@,
                        to_x as int,
                        to_y as int,
                        time_steps as int,
                        self.link::<A>(*single),
                    );
                    lemma_paced_strides(walk@, self.link::<A>(*single), radius as int);
                }
                Ok(walk)
            },
            Err(e) => Err(e),
        }
    }

    /// Samples `qty` walks, one after the other, and stops at the first that
    /// fails.
    pub fn generate_paths<A: Arithmetic, S: Sampler>(
        &self,
        dp: &DynamicProgramPool,
        qty: usize,
        to_x: isize,
        to_y: isize,
        time_steps: usize,
        sampler: &mut S,
    ) -> (r: Result<Vec<Walk>, WalkerError>)
        requires
            self.admits(*dp, to_x as int, to_y as int, time_steps as int),
        ensures
            all_answer(
                qty as int,
                r,
                |one: Result<Walk, WalkerError>|
                    self.answers::<A>(*dp, to_x as int, to_y as int, time_steps as int, one),
            ),
    {
        Walker::<A>::generate_paths::<S>(self, dp, qty, to_x, to_y, time_steps, sampler)
    }

    /// The short name of the walker if `short`, else the long one.
    pub open spec fn label(&self, short: bool) -> Seq<char> {
        if short {
            "lcw"@
        } else {
            "Land Cover Walker"@
        }
    }

    /// The short name of the walker if `short`, else the long one.
    pub fn name(&self, short: bool) -> (n: String)
        ensures
            n@ == self.label(short),
    {
        if short {
            "lcw".to_owned()
        } else {
            "Land Cover Walker".to_owned()
        }
    }
}

} // verus!
