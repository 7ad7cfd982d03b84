//! The standard walker: one table, steps to the four neighbours or none.

use crate::arithmetic::{absorbing, is_null, null, Arithmetic};
use crate::dataset::point::XYPoint;
use crate::dp::recurrence::{follows, inside, layer_cell, lemma_gathered_nothing, stepped, term};
use crate::dp::simple::{is_cross, DynamicProgram};
use crate::dp::DynamicProgramPool;
use crate::walk::Walk;
use crate::walker::{
    all_answer, all_null, backtracked, conclude, creeps, draw, held, leads, lemma_backtracked_step,
    lemma_paced_creeps, lemma_way, near, point, reaches, supported, way, Sampler, Walker,
    WalkerError,
};
use vstd::prelude::*;

verus! {

/// The offsets of the candidates in the order in which they are weighed:
/// stay, west, north, east, south.
pub open spec fn stencil() -> Seq<(int, int)> {
    seq![(0, 0), (-1, 0), (0, -1), (1, 0), (0, 1)]
}

/// What the cell `(x, y)` and its four neighbours held at time `t` in `dp`,
/// in the order of the stencil; nothing for a neighbour beyond the edge.
pub open spec fn around(dp: DynamicProgram, x: int, y: int, t: int) -> Seq<u64> {
    Seq::new(
        5,
        |i: int| held(dp.layer(t), dp.limit(), x + stencil()[i].0, y + stencil()[i].1),
    )
}

/// Whether neither the cell `(x, y)` nor one of its four neighbours held
/// mass at time `t` in `dp`.
pub open spec fn dead_end<A: Arithmetic>(dp: DynamicProgram, x: int, y: int, t: int) -> bool {
    all_null::<A>(around(dp, x, y, t))
}

/// Mass has a source: under a kernel that steps to the four neighbours only,
/// and where nothing comes of nothing, a cell of a computed table holds no
/// mass at time `t` if neither it nor one of its neighbours held any a step
/// earlier.
pub proof fn lemma_mass_has_a_source<A: Arithmetic>(dp: DynamicProgram, x: int, y: int, t: int)
    requires
        dp.computed::<A>(),
        is_cross::<A>(dp.kernel.grid()),
        absorbing::<A>(),
        dp.covers(x, y),
        1 <= t <= dp.time_limit,
        dead_end::<A>(dp, x, y, t - 1),
    ensures
        null::<A>(dp.cell(x, y, t)),
{
    let limit = dp.limit();
    let kernel = dp.kernel.grid();
    let prev = dp.layer(t - 1);
    let masses = around(dp, x, y, t - 1);
    assert forall|i: int, j: int|
        inside(limit, i, j) && -1 <= i - x <= 1 && -1 <= j - y <= 1 implies null::<A>(
        #[trigger] term::<A>(prev, kernel, limit, x, y, i, j),
    ) by {
        if i != x && j != y {
            assert(null::<A>(kernel[1 + (x - i)][1 + (y - j)]));
        } else {
            let place: int = if i == x && j == y {
                0
            } else if i == x - 1 {
                1
            } else if j == y - 1 {
                2
            } else if i == x + 1 {
                3
            } else {
                4
            };
            assert(null::<A>(masses[place]));
            assert(masses[place] == layer_cell(prev, limit, i, j));
        }
    }
    lemma_gathered_nothing::<A>(prev, kernel, limit, x, y, 3, 0);
    assert(follows::<A>(dp.layer(t), prev, kernel, dp.mask(), limit));
    assert(layer_cell(dp.layer(t), limit, x, y) == stepped::<A>(
        prev,
        kernel,
        dp.mask(),
        limit,
        x,
        y,
    ));
}

/// Whether the step from `earlier` to `later` stays or leads to one of the four
/// neighbours.
pub open spec fn neighbours() -> spec_fn(XYPoint, XYPoint, int) -> bool {
    |earlier: XYPoint, later: XYPoint, t: int| near(later.x - earlier.x, later.y - earlier.y)
}

/// The cell that is candidate `direction` of the cell `(x, y)`.
pub fn neighbour(x: isize, y: isize, direction: usize) -> (n: (isize, isize))
    requires
        direction < 5,
        isize::MIN < x < isize::MAX,
        isize::MIN < y < isize::MAX,
    ensures
        n.0 == x + stencil()[direction as int].0,
        n.1 == y + stencil()[direction as int].1,
{
    if direction == 1 {
        (x - 1, y)
    } else if direction == 2 {
        (x, y - 1)
    } else if direction == 3 {
        (x + 1, y)
    } else if direction == 4 {
        (x, y + 1)
    } else {
        (x, y)
    }
}

/// Samples walks from a program with one table, weighing each neighbour by
/// what it held a step earlier.
#[derive(Debug, Clone, Copy)]
pub struct StandardWalker;

impl StandardWalker {
    /// The standard walker.
    pub fn new() -> Self {
        Self
    }

    /// What the cell `(x, y)` and its four neighbours held at time `t`, in
    /// the order of the stencil; nothing for a neighbour beyond the edge.
    pub fn masses(dp: &DynamicProgram, x: isize, y: isize, t: usize) -> (m: Vec<u64>)
        requires
            dp.wf(),
            dp.covers(x as int, y as int),
            t <= dp.time_limit,
        ensures
            m@ == around(*dp, x as int, y as int, t as int),
    {
        let mut m: Vec<u64> = Vec::new();
        m.push(dp.at_or(x, y, t, 0));
        m.push(dp.at_or(x - 1, y, t, 0));
        m.push(dp.at_or(x, y - 1, t, 0));
        m.push(dp.at_or(x + 1, y, t, 0));
        m.push(dp.at_or(x, y + 1, t, 0));
        assert(m@ =~= around(*dp, x as int, y as int, t as int));
        m
    }

    /// Whether the walker can be asked for a walk on `dp` to `(to_x, to_y)`
    /// in `time_steps` steps: a program with one table has the shape of its
    /// time limit, and target and time lie on it.
    pub open spec fn admits(
        &self,
        dp: DynamicProgramPool,
        to_x: int,
        to_y: int,
        time_steps: int,
    ) -> bool {
        dp is Single ==> dp.wf() && reaches(dp, to_x, to_y, time_steps)
    }

    /// Whether the table of `dp` is one on which the walker always finds a
    /// way back: it was computed, with a kernel that steps to the four
    /// neighbours only, in an arithmetic in which nothing comes of nothing.
    pub open spec fn sound<A: Arithmetic>(dp: DynamicProgram) -> bool {
        &&& dp.computed::<A>()
        &&& is_cross::<A>(dp.kernel.grid())
        &&& absorbing::<A>()
    }

    /// Whether `r` is an answer that the walker may give when it is asked
    /// for a walk on `dp` to `(to_x, to_y)` in `time_steps` steps.
    ///
    /// A program with several tables is refused.  A target that holds no mass
    /// has no path.  From a target that holds mass, a walk of no step is the
    /// origin alone, if the target is the origin, and else inconsistent; and
    /// a walk of some steps is inconsistent if neither the target nor one of
    /// its neighbours held mass a step earlier.  On a sound table no walk is
    /// inconsistent: only the sampler can fail.  A walk that is returned leads
    /// from the origin to the target, creeps, and every point of it held mass
    /// at its time.
    pub open spec fn answers<A: Arithmetic>(
        &self,
        dp: DynamicProgramPool,
        to_x: int,
        to_y: int,
        time_steps: int,
        r: Result<Walk, WalkerError>,
    ) -> bool {
        match dp {
            DynamicProgramPool::Multiple(_) => r == Err::<Walk, _>(
                WalkerError::RequiresSingleDynamicProgram,
            ),
            DynamicProgramPool::Single(single) => {
                let massless = null::<A>(single.cell(to_x, to_y, time_steps));
                &&& massless <==> r == Err::<Walk, _>(WalkerError::NoPathExists)
                &&& !massless && time_steps == 0 ==> ((to_x == 0 && to_y == 0) <==> r is Ok)
                &&& !massless && time_steps == 0 && !(to_x == 0 && to_y == 0) ==> r == Err::<Walk, _>(
                    WalkerError::InconsistentPath,
                )
                &&& !massless && time_steps > 0 && dead_end::<A>(single, to_x, to_y, time_steps - 1)
                    ==> r == Err::<Walk, _>(WalkerError::InconsistentPath)
                &&& Self::sound::<A>(single) ==> r != Err::<Walk, _>(WalkerError::InconsistentPath)
                &&& r matches Ok(walk) ==> {
                    &&& leads(walk@, to_x, to_y, time_steps)
                    &&& creeps(walk@)
                    &&& supported::<A>(walk@, single)
                }
                &&& r matches Err(e) ==> e == WalkerError::NoPathExists || e
                    == WalkerError::InconsistentPath || e
                    == WalkerError::RandomDistributionError
            },
        }
    }

    /// Samples one walk from the origin to `(to_x, to_y)` in `time_steps` steps.
    pub fn generate_path<A: Arithmetic, S: Sampler>(
        &self,
        dp: &DynamicProgramPool,
        to_x: isize,
        to_y: isize,
        time_steps: usize,
        sampler: &mut S,
    ) -> (r: Result<Walk, WalkerError>)
        requires
            self.admits(*dp, to_x as int, to_y as int, time_steps as int),
        ensures
            self.answers::<A>(*dp, to_x as int, to_y as int, time_steps as int, r),
    {
        let single = match dp {
            DynamicProgramPool::Single(single) => single,
            DynamicProgramPool::Multiple(_) => {
                return Err(WalkerError::RequiresSingleDynamicProgram);
            },
        };
        if is_null::<A>(single.at(to_x, to_y, time_steps)) {
            return Err(WalkerError::NoPathExists);
        }
        let mut reversed: Vec<XYPoint> = Vec::new();
        let mut x = to_x;
        let mut y = to_y;
        let mut t = time_steps;
        while t > 0
            invariant
                *dp == DynamicProgramPool::Single(*single),
                !null::<A>(single.cell(to_x as int, to_y as int, time_steps as int)),
                t < time_steps ==> !dead_end::<A>(
                    *single,
                    to_x as int,
                    to_y as int,
                    time_steps - 1,
                ),
                backtracked::<A>(
                    *single,
                    reversed@,
                    x as int,
                    y as int,
                    t as int,
                    to_x as int,
                    to_y as int,
                    time_steps as int,
                    neighbours(),
                ),
            decreases t,
        {
            let masses = Self::masses(single, x, y, t - 1);
            proof {
                if Self::sound::<A>(*single) && dead_end::<A>(*single, x as int, y as int, t - 1) {
                    lemma_mass_has_a_source::<A>(*single, x as int, y as int, t as int);
                }
            }
            let direction = match draw::<A, S>(&masses, &masses, &masses, sampler) {
                Ok(direction) => direction,
                Err(e) => {
                    return Err(e);
                },
            };
            let (nx, ny) = neighbour(x, y, direction);
            proof {
                assert(masses@[direction as int] == held(
                    single.layer(t - 1),
                    single.limit(),
                    x + stencil()[direction as int].0,
                    y + stencil()[direction as int].1,
                ));
                lemma_backtracked_step::<A>(
                    *single,
                    reversed@,
                    x as int,
                    y as int,
                    t as int,
                    to_x as int,
                    to_y as int,
                    time_steps as int,
                    neighbours(),
                    nx as int,
                    ny as int,
                );
            }
            reversed.push(XYPoint { x: x as i64, y: y as i64 });
            x = nx;
            y = ny;
            t = t - 1;
        }
        proof {
            if Self::sound::<A>(*single) {
                assert(single.cell(x as int, y as int, 0) == layer_cell(
                    single.layer(0),
                    single.limit(),
                    x as int,
                    y as int,
                ));
            }
        }
        match conclude(&reversed, x, y) {
            Ok(walk) => {
                proof {
                    lemma_way::<A>(
                        *single,
                        reversed@,
                        to_x as int,
                        to_y as int,
                        time_steps as int,
                        neighbours(),
                    );
                    lemma_paced_creeps(walk@, neighbours());
                }
                Ok(walk)
            },
            Err(e) => Err(e),
        }
    }

    /// Samples `qty` walks, one after the other, and stops at the first that
    /// fails.
    pub fn generate_paths<A: Arithmetic, S: Sampler>(
        &self,
        dp: &DynamicProgramPool,
        qty: usize,
        to_x: isize,
        to_y: isize,
        time_steps: usize,
        sampler: &mut S,
    ) -> (r: Result<Vec<Walk>, WalkerError>)
        requires
            self.admits(*dp, to_x as int, to_y as int, time_steps as int),
        ensures
            all_answer(
                qty as int,
                r,
                |one: Result<Walk, WalkerError>|
                    self.answers::<A>(*dp, to_x as int, to_y as int, time_steps as int, one),
            ),
    {
        Walker::<A>::generate_paths::<S>(self, dp, qty, to_x, to_y, time_steps, sampler)
    }

    /// The short name of the walker if `short`, else the long one.
    pub open spec fn label(&self, short: bool) -> Seq<char> {
        if short {
            "swg"@
        } else {
            "Standard Walker"@
        }
    }

    /// The short name of the walker if `short`, else the long one.
    pub fn name(&self, short: bool) -> (n: String)
        ensures
            n@ == self.label(short),
    {
        if short {
            "swg".to_owned()
        } else {
            "Standard Walker".to_owned()
        }
    }
}

} // verus!
