//! The Lévy walker: one table, short steps and now and then a jump.

use crate::arithmetic::{is_null, null, Arithmetic};
use crate::dataset::point::XYPoint;
use crate::dp::simple::DynamicProgram;
use crate::dp::recurrence::addressable;
use crate::dp::DynamicProgramPool;
use crate::grid::is_square;
use crate::kernel::Kernel;
use crate::walk::Walk;
use crate::walker::{
    all_answer, as_moves, backtracked, choosable, conclude, leads, lemma_backtracked_step,
    lemma_paced_strides, lemma_way, paced, point, reaches, step_back, strides, stuck, supported,
    taken, Sampler, Walker, WalkerError,
};
use vstd::prelude::*;

verus! {

/// The candidates of a step of length `distance`: west, north, east, south
/// and, for a step of length one, staying.
pub open spec fn cross(distance: int) -> Seq<(int, int)> {
    let arms = seq![(-distance, 0int), (0int, -distance), (distance, 0int), (0int, distance)];
    if distance == 1 {
        arms.push((0, 0))
    } else {
        arms
    }
}

/// The moves to the candidates of a step of length `distance`.
pub open spec fn arms(distance: usize) -> Seq<(isize, isize)> {
    as_moves(cross(distance as int))
}

/// Whether `(dx, dy)` is the offset of a candidate of a step of length
/// `distance`.
pub open spec fn on_cross(distance: int, dx: int, dy: int) -> bool {
    ||| (dy == 0 && (dx == distance || dx == -distance))
    ||| (dx == 0 && (dy == distance || dy == -distance))
    ||| (distance == 1 && dx == 0 && dy == 0)
}

/// The candidates of a step of length `distance`.
pub fn cross_moves(distance: usize) -> (moves: Vec<(isize, isize)>)
    requires
        distance <= isize::MAX,
    ensures
        moves@ == arms(distance),
        forall|i: int|
            0 <= i < moves@.len() ==> on_cross(
                distance as int,
                (#[trigger] moves@[i]).0 as int,
                moves@[i].1 as int,
            ),
{
    let d = distance as isize;
    let mut moves: Vec<(isize, isize)> = Vec::new();
    moves.push((-d, 0));
    moves.push((0, -d));
    moves.push((d, 0));
    moves.push((0, d));
    if distance == 1 {
        moves.push((0, 0));
    }
    assert(moves@ =~= arms(distance));
    moves
}

/// Samples walks from a program with one table.  Each step is a jump of
/// `jump_distance` cells with the probability `jump_probability`, and else a
/// step to a neighbour or none.
#[derive(Debug)]
pub struct LevyWalker {
    /// The probability of a jump, as a weight.
    pub jump_probability: u64,
    /// The length of a jump.
    pub jump_distance: usize,
    /// The kernel with which the table was computed.
    pub kernel: Kernel,
}

impl LevyWalker {
    /// A walker that jumps `jump_distance` cells with the probability
    /// `jump_probability`, for a table that was computed with `kernel`.
    pub fn new(jump_probability: u64, jump_distance: usize, kernel: Kernel) -> (w: Self)
        ensures
            w.jump_probability == jump_probability,
            w.jump_distance == jump_distance,
            w.kernel == kernel,
    {
        Self { jump_probability, jump_distance, kernel }
    }

    /// The length of the longest step.
    pub open spec fn reach(&self) -> int {
        if self.jump_distance > 1 {
            self.jump_distance as int
        } else {
            1
        }
    }

    /// Whether the walker can work on a grid that reaches `limit` cells from
    /// the origin: its kernel has a weight for every step, and no candidate
    /// lies beyond the coordinates.
    pub open spec fn suits(&self, limit: int) -> bool {
        &&& self.kernel.wf()
        &&& self.kernel.side() % 2 == 1
        &&& self.reach() <= self.kernel.radius()
        &&& self.reach() + limit < isize::MAX
    }

    /// Whether the walker can work on a grid that reaches `limit` cells from
    /// the origin.
    pub fn is_suited(&self, limit: usize) -> (r: bool)
        requires
            addressable(limit),
        ensures
            r == self.suits(limit as int),
    {
        let reach: usize = if self.jump_distance > 1 {
            self.jump_distance
        } else {
            1
        };
        self.kernel.is_wf() && self.kernel.size() % 2 == 1 && reach <= self.kernel.size() / 2
            && reach < isize::MAX as usize - limit
    }

    /// Whether the step between `earlier` and `later` is one that the walker
    /// takes: it stays, leads to a neighbour or jumps the jump distance along
    /// one axis, and it may have been taken on the way back at the time `t`
    /// of `later`.
    pub open spec fn link<A: Arithmetic>(&self, dp: DynamicProgram) -> spec_fn(
        XYPoint,
        XYPoint,
        int,
    ) -> bool {
        |earlier: XYPoint, later: XYPoint, t: int|
            {
                &&& on_cross(1, earlier.x - later.x, earlier.y - later.y) || on_cross(
                    self.jump_distance as int,
                    earlier.x - later.x,
                    earlier.y - later.y,
                )
                &&& taken::<A>(
                    dp.layer(t - 1),
                    dp.layer(t),
                    dp.limit(),
                    self.kernel,
                    false,
                    earlier,
                    later,
                )
            }
    }

    /// Whether the way back stalls at the target whether it jumps or not:
    /// neither a candidate of a short step nor one of a jump has a weight
    /// that holds mass.
    pub open spec fn stalls<A: Arithmetic>(
        &self,
        dp: DynamicProgram,
        to_x: int,
        to_y: int,
        time_steps: int,
    ) -> bool {
        &&& stuck::<A>(
            dp.layer(time_steps - 1),
            dp.layer(time_steps),
            dp.limit(),
            self.kernel,
            arms(1),
            false,
            to_x,
            to_y,
        )
        &&& stuck::<A>(
            dp.layer(time_steps - 1),
            dp.layer(time_steps),
            dp.limit(),
            self.kernel,
            arms(self.jump_distance),
            false,
            to_x,
            to_y,
        )
    }

    /// Whether the walker can be asked for a walk on `dp` to `(to_x, to_y)`
    /// in `time_steps` steps: a program with one table has the shape of its
    /// time limit, the walker suits it, and target and time lie on it.
    pub open spec fn admits(
        &self,
        dp: DynamicProgramPool,
        to_x: int,
        to_y: int,
        time_steps: int,
    ) -> bool {
        dp is Single ==> dp.wf() && self.suits(dp.limit()) && reaches(dp, to_x, to_y, time_steps)
    }

    /// Whether `r` is an answer that the walker may give when it is asked
    /// for a walk on `dp` to `(to_x, to_y)` in `time_steps` steps.
    ///
    /// A program with several tables is refused.  A target that holds no mass
    /// has no path.  From a target that holds mass, a walk of no step is the
    /// origin alone, if the target is the origin, and else inconsistent; and
    /// a walk of some steps is inconsistent if the way back stalls at the
    /// target.  A walk that is returned leads from the origin to the target,
    /// every point of it held mass at its time, and every step of it is
    /// linked.
    pub open spec fn answers<A: Arithmetic>(
        &self,
        dp: DynamicProgramPool,
        to_x: int,
        to_y: int,
        time_steps: int,
        r: Result<Walk, WalkerError>,
    ) -> bool {
        match dp {
            DynamicProgramPool::Multiple(_) => r == Err::<Walk, _>(
                WalkerError::RequiresSingleDynamicProgram,
            ),
            DynamicProgramPool::Single(single) => {
                let massless = null::<A>(single.cell(to_x, to_y, time_steps));
                &&& massless <==> r == Err::<Walk, _>(WalkerError::NoPathExists)
                &&& !massless && time_steps == 0 ==> ((to_x == 0 && to_y == 0) <==> r is Ok)
                &&& !massless && time_steps == 0 && !(to_x == 0 && to_y == 0) ==> r == Err::<Walk, _>(
                    WalkerError::InconsistentPath,
                )
                &&& !massless && time_steps > 0 && self.stalls::<A>(single, to_x, to_y, time_steps)
                    ==> r == Err::<Walk, _>(WalkerError::InconsistentPath)
                &&& r matches Ok(walk) ==> {
                    &&& leads(walk@, to_x, to_y, time_steps)
                    &&& strides(walk@, self.reach())
                    &&& paced(walk@, self.link::<A>(single))
                    &&& supported::<A>(walk@, single)
                }
                &&& r matches Err(e) ==> e == WalkerError::NoPathExists || e
                    == WalkerError::InconsistentPath || e
                    == WalkerError::RandomDistributionError
            },
        }
    }

    /// Samples one walk from the origin to `(to_x, to_y)` in `time_steps` steps.
    pub fn generate_path<A: Arithmetic, S: Sampler>(
        &self,
        dp: &DynamicProgramPool,
        to_x: isize,
        to_y: isize,
        time_steps: usize,
        sampler: &mut S,
    ) -> (r: Result<Walk, WalkerError>)
        requires
            self.admits(*dp, to_x as int, to_y as int, time_steps as int),
        ensures
            self.answers::<A>(*dp, to_x as int, to_y as int, time_steps as int, r),
    {
        let single = match dp {
            DynamicProgramPool::Single(single) => single,
            DynamicProgramPool::Multiple(_) => {
                return Err(WalkerError::RequiresSingleDynamicProgram);
            },
        };
        if is_null::<A>(single.at(to_x, to_y, time_steps)) {
            return Err(WalkerError::NoPathExists);
        }
        let reach: usize = if self.jump_distance > 1 {
            self.jump_distance
        } else {
            1
        };
        let mut reversed: Vec<XYPoint> = Vec::new();
        let mut x = to_x;
        let mut y = to_y;
        let mut t = time_steps;
        while t > 0
            invariant
                *dp == DynamicProgramPool::Single(*single),
                !null::<A>(single.cell(to_x as int, to_y as int, time_steps as int)),
                self.suits(single.limit()),
                reach == self.reach(),
                t < time_steps ==> !self.stalls::<A>(
                    *single,
                    to_x as int,
                    to_y as int,
                    time_steps as int,
                ),
                backtracked::<A>(
                    *single,
                    reversed@,
                    x as int,
                    y as int,
                    t as int,
                    to_x as int,
                    to_y as int,
                    time_steps as int,
                    self.link::<A>(*single),
                ),
            decreases t,
        {
            let distance: usize = if sampler.chance(self.jump_probability) {
                self.jump_distance
            } else {
                1
            };
            let moves = cross_moves(distance);
            assert(is_square(single.layer(t as int), (2 * single.time_limit + 1) as nat));
            assert(is_square(single.layer(t - 1), (2 * single.time_limit + 1) as nat));
            let chosen = match step_back::<A, S>(
                &single.table[t - 1],
                &single.table[t],
                single.time_limit,
                &self.kernel,
                &moves,
                false,
                x,
                y,
                sampler,
            ) {
                Ok(chosen) => chosen,
                Err(e) => {
                    return Err(e);
                },
            };
            let (dx, dy) = moves[chosen];
            proof {
                assert(on_cross(distance as int, moves@[chosen as int].0 as int, moves@[chosen as int].1 as int));
                assert(choosable::<A>(
                    single.layer(t - 1),
                    single.layer(t as int),
                    single.limit(),
                    self.kernel,
                    moves@,
                    false,
                    x as int,
                    y as int,
                    chosen as int,
                ));
                assert(self.link::<A>(*single)(point(x + dx, y + dy), point(x as int, y as int), t as int));
                lemma_backtracked_step::<A>(
                    *single,
                    reversed@,
                    x as int,
                    y as int,
                    t as int,
                    to_x as int,
                    to_y as int,
                    time_steps as int,
                    self.link::<A>(*single),
                    x + dx,
                    y + dy,
                );
            }
            reversed.push(XYPoint { x: x as i64, y: y as i64 });
            x = x + dx;
            y = y + dy;
            t = t - 1;
        }
        match conclude(&reversed, x, y) {
            Ok(walk) => {
                proof {
                    lemma_way::<A>(
                        *single,
                        reversed@,
                        to_x as int,
                        to_y as int,
                        time_steps as int,
                        self.link::<A>(*single),
                    );
                    lemma_paced_strides(walk@, self.link::<A>(*single), reach as int);
                }
                Ok(walk)
            },
            Err(e) => Err(e),
        }
    }

    /// Samples `qty` walks, one after the other, and stops at the first that
    /// fails.
    pub fn generate_paths<A: Arithmetic, S: Sampler>(
        &self,
        dp: &DynamicProgramPool,
        qty: usize,
        to_x: isize,
        to_y: isize,
        time_steps: usize,
        sampler: &mut S,
    ) -> (r: Result<Vec<Walk>, WalkerError>)
        requires
            self.admits(*dp, to_x as int, to_y as int, time_steps as int),
        ensures
            all_answer(
                qty as int,
                r,
                |one: Result<Walk, WalkerError>|
                    self.answers::<A>(*dp, to_x as int, to_y as int, time_steps as int, one),
            ),
    {
        Walker::<A>::generate_paths::<S>(self, dp, qty, to_x, to_y, time_steps, sampler)
    }

    /// The short name of the walker if `short`, else the long one.
    pub open spec fn label(&self, short: bool) -> Seq<char> {
        if short {
            "lw"@
        } else {
            "Lévy Walker"@
        }
    }

    /// The short name of the walker if `short`, else the long one.
    pub fn name(&self, short: bool) -> (n: String)
        ensures
            n@ == self.label(short),
    {
        if short {
            "lw".to_owned()
        } else {
            "Lévy Walker".to_owned()
        }
    }
}

} // verus!
