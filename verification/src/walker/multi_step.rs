//! The multi-step walker: one table, steps of up to a given length.

use crate::arithmetic::{is_null, null, Arithmetic};
use crate::dataset::point::XYPoint;
use crate::dp::simple::DynamicProgram;
use crate::dp::recurrence::addressable;
use crate::dp::DynamicProgramPool;
use crate::grid::is_square;
use crate::kernel::Kernel;
use crate::walk::Walk;
use crate::walker::{
    all_answer, as_moves, backtracked, choosable, conclude, leads, lemma_backtracked_step,
    lemma_paced_strides, lemma_way, offsets_of, paced, point, reaches, step_back, strides, stuck,
    supported, taken, Sampler, Walker, WalkerError,
};
use vstd::prelude::*;

verus! {

/// Whether `moves` are offsets of at most `reach` along either axis.
pub open spec fn within(moves: Seq<(isize, isize)>, reach: int) -> bool {
    forall|i: int|
        0 <= i < moves.len() ==> {
            &&& -reach <= (#[trigger] moves[i]).0 <= reach
            &&& -reach <= moves[i].1 <= reach
        }
}

/// The first `count` offsets of the column `dx` of the square that reaches
/// `reach` cells from its centre: the row offsets go up from `-reach`.
pub open spec fn column_offsets(dx: int, reach: int, count: int) -> Seq<(int, int)> {
    Seq::new(
        if count >= 0 {
            count as nat
        } else {
            0
        },
        |k: int| (dx, k - reach),
    )
}

/// The offsets of the first `columns` columns of the square that reaches
/// `reach` cells from its centre: the column offsets go up from `-reach`.
pub open spec fn square_offsets(reach: int, columns: int) -> Seq<(int, int)>
    decreases columns,
{
    if columns <= 0 {
        Seq::empty()
    } else {
        square_offsets(reach, columns - 1) + column_offsets(
            columns - 1 - reach,
            reach,
            2 * reach + 1,
        )
    }
}

/// The moves to the cells of the square that reaches `reach` cells from its
/// centre, column by column.
pub open spec fn square(reach: usize) -> Seq<(isize, isize)> {
    as_moves(square_offsets(reach as int, 2 * reach + 1))
}

/// The moves to the cells of the square that reaches `reach` cells from its
/// centre, column by column.
pub fn square_moves(reach: usize) -> (moves: Vec<(isize, isize)>)
    requires
        reach < isize::MAX,
    ensures
        moves@ == square(reach),
        offsets_of(moves@) == square_offsets(reach as int, 2 * reach + 1),
        within(moves@, reach as int),
{
    let bound = reach as isize;
    let mut moves: Vec<(isize, isize)> = Vec::new();
    let mut dx: isize = -bound;
    assert(offsets_of(moves@) =~= square_offsets(reach as int, 0));
    while dx <= bound
        invariant
            bound == reach,
            bound < isize::MAX,
            -bound <= dx <= bound + 1,
            within(moves@, reach as int),
            offsets_of(moves@) == square_offsets(reach as int, dx + reach),
        decreases bound + 1 - dx,
    {
        let ghost start = offsets_of(moves@);
        let mut dy: isize = -bound;
        assert(start + column_offsets(dx as int, reach as int, 0) =~= start);
        while dy <= bound
            invariant
                bound == reach,
                bound < isize::MAX,
                -bound <= dx <= bound,
                -bound <= dy <= bound + 1,
                within(moves@, reach as int),
                offsets_of(moves@) == start + column_offsets(dx as int, reach as int, dy + reach),
            decreases bound + 1 - dy,
        {
            let ghost before = moves@;
            moves.push((dx, dy));
            assert forall|i: int| 0 <= i < moves@.len() implies {
                &&& -reach <= (#[trigger] moves@[i]).0 <= reach
                &&& -reach <= moves@[i].1 <= reach
            } by {
                if i < before.len() {
                    assert(moves@[i] == before[i]);
                }
            }
            proof {
                let shorter = start + column_offsets(dx as int, reach as int, dy + reach);
                let longer = start + column_offsets(dx as int, reach as int, dy + reach + 1);
                assert(offsets_of(before) == shorter);
                assert(offsets_of(before).len() == before.len());
                assert(longer.len() == moves@.len());
                assert forall|i: int| 0 <= i < moves@.len() implies offsets_of(moves@)[i]
                    == longer[i] by {
                    if i < before.len() {
                        assert(moves@[i] == before[i]);
                        assert(offsets_of(before)[i] == shorter[i]);
                        if i >= start.len() {
                            assert(shorter[i] == column_offsets(
                                dx as int,
                                reach as int,
                                dy + reach,
                            )[i - start.len()]);
                        }
                    }
                }
                assert(offsets_of(moves@) =~= longer);
            }
            dy += 1;
        }
        dx += 1;
    }
    proof {
        let offsets = square_offsets(reach as int, 2 * reach + 1);
        assert(offsets.len() == moves@.len());
        assert forall|i: int| 0 <= i < moves@.len() implies moves@[i] == square(reach)[i] by {
            assert(offsets_of(moves@)[i] == offsets[i]);
        }
        assert(moves@ =~= square(reach));
    }
    moves
}

/// Samples walks from a program with one table.  A step may lead to any cell
/// of the square that reaches `max_step_size` cells from the current one.
#[derive(Debug)]
pub struct MultiStepWalker {
    /// The length of the longest step along either axis.
    pub max_step_size: usize,
    /// The kernel with which the table was computed.
    pub kernel: Kernel,
}

impl MultiStepWalker {
    /// A walker with steps of up to `max_step_size` cells, for a table that
    /// was computed with `kernel`.
    pub fn new(max_step_size: usize, kernel: Kernel) -> (w: Self)
        ensures
            w.max_step_size == max_step_size,
            w.kernel == kernel,
    {
        Self { max_step_size, kernel }
    }

    /// Whether the walker can work on a grid that reaches `limit` cells from
    /// the origin: its kernel has a weight for every step, and no candidate
    /// lies beyond the coordinates.
    pub open spec fn suits(&self, limit: int) -> bool {
        &&& self.kernel.wf()
        &&& self.kernel.side() % 2 == 1
        &&& self.max_step_size <= self.kernel.radius()
        &&& self.max_step_size + limit < isize::MAX
    }

    /// Whether the walker can work on a grid that reaches `limit` cells from
    /// the origin.
    pub fn is_suited(&self, limit: usize) -> (r: bool)
        requires
            addressable(limit),
        ensures
            r == self.suits(limit as int),
    {
        self.kernel.is_wf() && self.kernel.size() % 2 == 1 && self.max_step_size
            <= self.kernel.size() / 2 && self.max_step_size < isize::MAX as usize - limit
    }

    /// Whether the step between `earlier` and `later` is one that the walker
    /// takes: it is no longer than the longest step along either axis, and it
    /// may have been taken on the way back at the time `t` of `later`.
    pub open spec fn link<A: Arithmetic>(&self, dp: DynamicProgram) -> spec_fn(
        XYPoint,
        XYPoint,
        int,
    ) -> bool {
        |earlier: XYPoint, later: XYPoint, t: int|
            {
                &&& -self.max_step_size <= earlier.x - later.x <= self.max_step_size
                &&& -self.max_step_size <= earlier.y - later.y <= self.max_step_size
                &&& taken::<A>(
                    dp.layer(t - 1),
                    dp.layer(t),
                    dp.limit(),
                    self.kernel,
                    false,
                    earlier,
                    later,
                )
            }
    }

    /// Whether the way back stalls at the target: no cell of the square
    /// around it has a weight that holds mass.
    pub open spec fn stalls<A: Arithmetic>(
        &self,
        dp: DynamicProgram,
        to_x: int,
        to_y: int,
        time_steps: int,
    ) -> bool {
        stuck::<A>(
            dp.layer(time_steps - 1),
            dp.layer(time_steps),
            dp.limit(),
            self.kernel,
            square(self.max_step_size),
            false,
            to_x,
            to_y,
        )
    }

    /// Whether the walker can be asked for a walk on `dp` to `(to_x, to_y)`
    /// in `time_steps` steps: a program with one table has the shape of its
    /// time limit, the walker suits it, and target and time lie on it.
    pub open spec fn admits(
        &self,
        dp: DynamicProgramPool,
        to_x: int,
        to_y: int,
        time_steps: int,
    ) -> bool {
        dp is Single ==> dp.wf() && self.suits(dp.limit()) && reaches(dp, to_x, to_y, time_steps)
    }

    /// Whether `r` is an answer that the walker may give when it is asked
    /// for a walk on `dp` to `(to_x, to_y)` in `time_steps` steps.
    ///
    /// A program with several tables is refused.  A target that holds no mass
    /// has no path.  From a target that holds mass, a walk of no step is the
    /// origin alone, if the target is the origin, and else inconsistent; and
    /// a walk of some steps is inconsistent if the way back stalls at the
    /// target.  A walk that is returned leads from the origin to the target,
    /// every point of it held mass at its time, and every step of it is
    /// linked.
    pub open spec fn answers<A: Arithmetic>(
        &self,
        dp: DynamicProgramPool,
        to_x: int,
        to_y: int,
        time_steps: int,
        r: Result<Walk, WalkerError>,
    ) -> bool {
        match dp {
            DynamicProgramPool::Multiple(_) => r == Err::<Walk, _>(
                WalkerError::RequiresSingleDynamicProgram,
            ),
            DynamicProgramPool::Single(single) => {
                let massless = null::<A>(single.cell(to_x, to_y, time_steps));
                &&& massless <==> r == Err::<Walk, _>(WalkerError::NoPathExists)
                &&& !massless && time_steps == 0 ==> ((to_x == 0 && to_y == 0) <==> r is Ok)
                &&& !massless && time_steps == 0 && !(to_x == 0 && to_y == 0) ==> r == Err::<Walk, _>(
                    WalkerError::InconsistentPath,
                )
                &&& !massless && time_steps > 0 && self.stalls::<A>(single, to_x, to_y, time_steps)
                    ==> r == Err::<Walk, _>(WalkerError::InconsistentPath)
                &&& r matches Ok(walk) ==> {
                    &&& leads(walk@, to_x, to_y, time_steps)
                    &&& strides(walk@, self.max_step_size as int)
                    &&& paced(walk@, self.link::<A>(single))
                    &&& supported::<A>(walk@, single)
                }
                &&& r matches Err(e) ==> e == WalkerError::NoPathExists || e
                    == WalkerError::InconsistentPath || e
                    == WalkerError::RandomDistributionError
            },
        }
    }

    /// Samples one walk from the origin to `(to_x, to_y)` in `time_steps` steps.
    pub fn generate_path<A: Arithmetic, S: Sampler>(
        &self,
        dp: &DynamicProgramPool,
        to_x: isize,
        to_y: isize,
        time_steps: usize,
        sampler: &mut S,
    ) -> (r: Result<Walk, WalkerError>)
        requires
            self.admits(*dp, to_x as int, to_y as int, time_steps as int),
        ensures
            self.answers::<A>(*dp, to_x as int, to_y as int, time_steps as int, r),
    {
        let single = match dp {
            DynamicProgramPool::Single(single) => single,
            DynamicProgramPool::Multiple(_) => {
                return Err(WalkerError::RequiresSingleDynamicProgram);
            },
        };
        if is_null::<A>(single.at(to_x, to_y, time_steps)) {
            return Err(WalkerError::NoPathExists);
        }
        let moves = square_moves(self.max_step_size);
        let mut reversed: Vec<XYPoint> = Vec::new();
        let mut x = to_x;
        let mut y = to_y;
        let mut t = time_steps;
        while t > 0
            invariant
                *dp == DynamicProgramPool::Single(*single),
                !null::<A>(single.cell(to_x as int, to_y as int, time_steps as int)),
                self.suits(single.limit()),
                moves@ == square(self.max_step_size),
                within(moves@, self.max_step_size as int),
                t < time_steps ==> !self.stalls::<A>(
                    *single,
                    to_x as int,
                    to_y as int,
                    time_steps as int,
                ),
                backtracked::<A>(
                    *single,
                    reversed@,
                    x as int,
                    y as int,
                    t as int,
                    to_x as int,
                    to_y as int,
                    time_steps as int,
                    self.link::<A>(*single),
                ),
            decreases t,
        {
            assert(is_square(single.layer(t as int), (2 * single.time_limit + 1) as nat));
            assert(is_square(single.layer(t - 1), (2 * single.time_limit + 1) as nat));
            let chosen = match step_back::<A, S>(
                &single.table[t - 1],
                &single.table[t],
                single.time_limit,
                &self.kernel,
                &moves,
                false,
                x,
                y,
                sampler,
            ) {
                Ok(chosen) => chosen,
                Err(e) => {
                    return Err(e);
                },
            };
            let (dx, dy) = moves[chosen];
            proof {
                assert(choosable::<A>(
                    single.layer(t - 1),
                    single.layer(t as int),
                    single.limit(),
                    self.kernel,
                    moves@,
                    false,
                    x as int,
                    y as int,
                    chosen as int,
                ));
                assert(self.link::<A>(*single)(point(x + dx, y + dy), point(x as int, y as int), t as int));
                lemma_backtracked_step::<A>(
                    *single,
                    reversed@,
                    x as int,
                    y as int,
                    t as int,
                    to_x as int,
                    to_y as int,
                    time_steps as int,
                    self.link::<A>(*single),
                    x + dx,
                    y + dy,
                );
            }
            reversed.push(XYPoint { x: x as i64, y: y as i64 });
            x = x + dx;
            y = y + dy;
            t = t - 1;
        }
        match conclude(&reversed, x, y) {
            Ok(walk) => {
                proof {
                    lemma_way::<A>(
                        *single,
                        reversed@,
                        to_x as int,
                        to_y as int,
                        time_steps as int,
                        self.link::<A>(*single),
                    );
                    lemma_paced_strides(walk@, self.link::<A>(*single), self.max_step_size as int);
                }
                Ok(walk)
            },
            Err(e) => Err(e),
        }
    }

    /// Samples `qty` walks, one after the other, and stops at the first that
    /// fails.
    pub fn generate_paths<A: Arithmetic, S: Sampler>(
        &self,
        dp: &DynamicProgramPool,
        qty: usize,
        to_x: isize,
        to_y: isize,
        time_steps: usize,
        sampler: &mut S,
    ) -> (r: Result<Vec<Walk>, WalkerError>)
        requires
            self.admits(*dp, to_x as int, to_y as int, time_steps as int),
        ensures
            all_answer(
                qty as int,
                r,
                |one: Result<Walk, WalkerError>|
                    self.answers::<A>(*dp, to_x as int, to_y as int, time_steps as int, one),
            ),
    {
        Walker::<A>::generate_paths::<S>(self, dp, qty, to_x, to_y, time_steps, sampler)
    }

    /// The short name of the walker if `short`, else the long one.
    pub open spec fn label(&self, short: bool) -> Seq<char> {
        if short {
            "msw"@
        } else {
            "Multi Step Walker"@
        }
    }

    /// The short name of the walker if `short`, else the long one.
    pub fn name(&self, short: bool) -> (n: String)
        ensures
            n@ == self.label(short),
    {
        if short {
            "msw".to_owned()
        } else {
            "Multi Step Walker".to_owned()
        }
    }
}

} // verus!
