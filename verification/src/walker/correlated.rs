//! The correlated walker: several tables, one for each direction of the step
//! that was taken last.

use crate::arithmetic::{is_null, null, Arithmetic};
use crate::dataset::point::XYPoint;
use crate::dp::multi::MultiDynamicProgram;
use crate::dp::DynamicProgramPool;
use crate::grid::is_square;
use crate::kernel::Kernel;
use crate::walk::Walk;
use crate::walker::random::random_below;
use crate::walker::standard::stencil;
use crate::walker::{
    all_answer, assemble, choosable, creeps, leads, near, point, reaches, step_back, taken,
    Sampler, Walker, WalkerError,
};
use vstd::prelude::*;

verus! {

/// The variant that is read after a step to candidate `direction` of the
/// stencil: stay, west, north, east, south.
///
/// The variants are ordered north, east, south, west, stay.  A step back to
/// the west was a step east, and the reverse; north and south keep their
/// names.
pub open spec fn variant_of(direction: int) -> int {
    if direction == 0 {
        4
    } else if direction == 1 {
        1
    } else if direction == 2 {
        0
    } else if direction == 3 {
        3
    } else {
        2
    }
}

/// The variant that is read after a step to candidate `direction`.
pub fn variant_after(direction: usize) -> (variant: usize)
    requires
        direction < 5,
    ensures
        variant == variant_of(direction as int),
        variant < 5,
{
    if direction == 0 {
        4
    } else if direction == 1 {
        1
    } else if direction == 2 {
        0
    } else if direction == 3 {
        3
    } else {
        2
    }
}

/// The place in the stencil of the offset `(dx, dy)`, and five for an offset
/// that the stencil does not hold.
pub open spec fn stencil_index(dx: int, dy: int) -> int {
    if dx == 0 && dy == 0 {
        0
    } else if dx == -1 && dy == 0 {
        1
    } else if dx == 0 && dy == -1 {
        2
    } else if dx == 1 && dy == 0 {
        3
    } else if dx == 0 && dy == 1 {
        4
    } else {
        5
    }
}

/// The candidates of one step in the order of the stencil.
pub fn stencil_moves() -> (moves: Vec<(isize, isize)>)
    ensures
        moves@.len() == 5,
        forall|i: int|
            0 <= i < 5 ==> ((#[trigger] moves@[i]).0 as int, moves@[i].1 as int) == stencil()[i],
{
    let mut moves: Vec<(isize, isize)> = Vec::new();
    moves.push((0, 0));
    moves.push((-1, 0));
    moves.push((0, -1));
    moves.push((1, 0));
    moves.push((0, 1));
    moves
}

/// Samples walks from a program with one table for each direction of the
/// last step.
#[derive(Debug)]
pub struct CorrelatedWalker {
    /// The kernels with which the tables were computed.
    pub kernels: Vec<Kernel>,
}

impl CorrelatedWalker {
    /// A walker for tables that were computed with `kernels`.
    pub fn new(kernels: Vec<Kernel>) -> (w: Self)
        ensures
            w.kernels == kernels,
    {
        Self { kernels }
    }

    /// Whether the walker can work on `dp`: there are a table and a kernel
    /// for each of the five directions, and each kernel has a weight for
    /// every step.
    pub open spec fn suits(&self, dp: DynamicProgramPool) -> bool {
        dp matches DynamicProgramPool::Multiple(multi) ==> {
            &&& multi.quantity() >= 5
            &&& self.kernels@.len() >= 5
            &&& multi.limit() + 2 < isize::MAX
            &&& forall|v: int|
                0 <= v < 5 ==> (#[trigger] self.kernels@[v]).wf() && self.kernels@[v].side() % 2 == 1
                    && self.kernels@[v].radius() >= 1
        }
    }

    /// Whether the walker can work on `dp`.
    pub fn is_suited(&self, dp: &DynamicProgramPool) -> (r: bool)
        requires
            dp.wf(),
        ensures
            r == self.suits(*dp),
    {
        match dp {
            DynamicProgramPool::Single(_) => true,
            DynamicProgramPool::Multiple(multi) => {
                if multi.variants() < 5 || self.kernels.len() < 5 || multi.time_limit
                    >= isize::MAX as usize - 2 {
                    return false;
                }
                let mut v: usize = 0;
                while v < 5
                    invariant
                        v <= 5,
                        *dp == DynamicProgramPool::Multiple(*multi),
                        self.kernels@.len() >= 5,
                        forall|u: int|
                            0 <= u < v ==> (#[trigger] self.kernels@[u]).wf() && self.kernels@[u].side()
                                % 2 == 1 && self.kernels@[u].radius() >= 1,
                    decreases 5 - v,
                {
                    let kernel = &self.kernels[v];
                    if !(kernel.is_wf() && kernel.size() % 2 == 1 && kernel.size() / 2 >= 1) {
                        return false;
                    }
                    v += 1;
                }
                true
            },
        }
    }

    /// Whether some variant of `dp` holds no mass at `(x, y)` at time `t`.
    pub open spec fn unreachable<A: Arithmetic>(
        dp: MultiDynamicProgram,
        x: int,
        y: int,
        t: int,
    ) -> bool {
        exists|v: int| 0 <= v < dp.quantity() && null::<A>(#[trigger] dp.cell(x, y, t, v))
    }

    /// Whether `(x, y)` is a cell of the grid that held mass at time `t` in
    /// one of the five variants of `dp`.
    pub open spec fn held_somewhere<A: Arithmetic>(
        dp: MultiDynamicProgram,
        x: int,
        y: int,
        t: int,
    ) -> bool {
        &&& dp.covers(x, y)
        &&& exists|v: int| 0 <= v < 5 && !null::<A>(#[trigger] dp.cell(x, y, t, v))
    }

    /// Whether every point of `walk` before the last two held mass at its
    /// time in one of the five variants of `dp`.
    pub open spec fn anchored<A: Arithmetic>(walk: Seq<XYPoint>, dp: MultiDynamicProgram) -> bool {
        forall|t: int|
            0 <= t < walk.len() - 2 ==> Self::held_somewhere::<A>(
                dp,
                (#[trigger] walk[t]).x as int,
                walk[t].y as int,
                t,
            )
    }

    /// Whether some variant of `dp` holds no mass at `(x, y)` at time `t`.
    fn is_unreachable<A: Arithmetic>(dp: &MultiDynamicProgram, x: isize, y: isize, t: usize) -> (r:
        bool)
        requires
            dp.wf(),
            dp.covers(x as int, y as int),
            t <= dp.time_limit,
        ensures
            r == Self::unreachable::<A>(*dp, x as int, y as int, t as int),
    {
        let mut v: usize = 0;
        while v < dp.variants()
            invariant
                v <= dp.quantity(),
                dp.wf(),
                dp.covers(x as int, y as int),
                t <= dp.time_limit,
                forall|u: int|
                    0 <= u < v ==> !null::<A>(#[trigger] dp.cell(x as int, y as int, t as int, u)),
            decreases dp.quantity() - v,
        {
            if is_null::<A>(dp.at(x, y, t, v)) {
                return true;
            }
            v += 1;
        }
        false
    }

    /// Whether the step from `middle` back to `earlier` was weighed in the
    /// table of the direction of the step from `later` back to `middle`, and
    /// may have been taken there.  `t` is the time of `middle`.
    pub open spec fn turn<A: Arithmetic>(
        &self,
        dp: MultiDynamicProgram,
        earlier: XYPoint,
        middle: XYPoint,
        later: XYPoint,
        t: int,
    ) -> bool {
        let v = variant_of(stencil_index(middle.x - later.x, middle.y - later.y));
        taken::<A>(
            dp.layer(t - 1, v),
            dp.layer(t, v),
            dp.limit(),
            self.kernels@[v],
            false,
            earlier,
            middle,
        )
    }

    /// Whether every step of `walk` but the last was weighed in the table
    /// of the direction of the step after it, and may have been taken there.
    pub open spec fn threaded<A: Arithmetic>(&self, walk: Seq<XYPoint>, dp: MultiDynamicProgram) -> bool {
        forall|t: int|
            1 <= t < walk.len() - 1 ==> self.turn::<A>(dp, walk[t - 1], #[trigger] walk[t], walk[t + 1], t)
    }

    /// Whether the walker can be asked for a walk on `dp` to `(to_x, to_y)`
    /// in `time_steps` steps: a program with several tables has the shape of
    /// its time limit, the walker suits it, and target and time lie on it.
    pub open spec fn admits(
        &self,
        dp: DynamicProgramPool,
        to_x: int,
        to_y: int,
        time_steps: int,
    ) -> bool {
        dp is Multiple ==> dp.wf() && self.suits(dp) && reaches(dp, to_x, to_y, time_steps)
    }

    /// Whether `r` is an answer that the walker may give when it is asked
    /// for a walk on `dp` to `(to_x, to_y)` in `time_steps` steps.
    ///
    /// A program with one table is refused.  A target that holds no mass in
    /// one of the variants has no path.  Else a walk of no step is the origin
    /// alone, if the target is the origin, and else inconsistent.  A walk
    /// that is returned leads from the origin to the target, creeps, is
    /// threaded, and every point of it before the last two held mass at its
    /// time in one of the five variants.
    pub open spec fn answers<A: Arithmetic>(
        &self,
        dp: DynamicProgramPool,
        to_x: int,
        to_y: int,
        time_steps: int,
        r: Result<Walk, WalkerError>,
    ) -> bool {
        match dp {
            DynamicProgramPool::Single(_) => r == Err::<Walk, _>(
                WalkerError::RequiresMultipleDynamicPrograms,
            ),
            DynamicProgramPool::Multiple(multi) => {
                let massless = Self::unreachable::<A>(multi, to_x, to_y, time_steps);
                &&& massless <==> r == Err::<Walk, _>(WalkerError::NoPathExists)
                &&& !massless && time_steps == 0 ==> ((to_x == 0 && to_y == 0) <==> r is Ok)
                &&& !massless && time_steps == 0 && !(to_x == 0 && to_y == 0) ==> r == Err::<Walk, _>(
                    WalkerError::InconsistentPath,
                )
                &&& r matches Ok(walk) ==> {
                    &&& leads(walk@, to_x, to_y, time_steps)
                    &&& creeps(walk@)
                    &&& self.threaded::<A>(walk@, multi)
                    &&& Self::anchored::<A>(walk@, multi)
                }
                &&& r matches Err(e) ==> e == WalkerError::NoPathExists || e
                    == WalkerError::InconsistentPath || e
                    == WalkerError::RandomDistributionError
            },
        }
    }

    /// Samples one walk from the origin to `(to_x, to_y)` in `time_steps`
    /// steps.
    ///
    /// The step that leads to the target is drawn among staying, west, north
    /// and east with equal chances; every step before it is weighed in the
    /// table of the direction of the step after it.
    pub fn generate_path<A: Arithmetic, S: Sampler>(
        &self,
        dp: &DynamicProgramPool,
        to_x: isize,
        to_y: isize,
        time_steps: usize,
        sampler: &mut S,
    ) -> (r: Result<Walk, WalkerError>)
        requires
            self.admits(*dp, to_x as int, to_y as int, time_steps as int),
        ensures
            self.answers::<A>(*dp, to_x as int, to_y as int, time_steps as int, r),
    {
        let multi = match dp {
            DynamicProgramPool::Multiple(multi) => multi,
            DynamicProgramPool::Single(_) => {
                return Err(WalkerError::RequiresMultipleDynamicPrograms);
            },
        };
        if Self::is_unreachable::<A>(multi, to_x, to_y, time_steps) {
            return Err(WalkerError::NoPathExists);
        }
        let moves = stencil_moves();
        let mut reversed: Vec<XYPoint> = Vec::new();
        let mut x = to_x;
        let mut y = to_y;
        let mut t = time_steps;
        let mut last_direction: usize = 0;
        if t > 0 {
            reversed.push(XYPoint { x: x as i64, y: y as i64 });
            last_direction = random_below(4);
            let (dx, dy) = moves[last_direction];
            assert((dx as int, dy as int) == stencil()[last_direction as int]);
            x = x + dx;
            y = y + dy;
            t = t - 1;
        }
        while t > 0
            invariant
                *dp == DynamicProgramPool::Multiple(*multi),
                !Self::unreachable::<A>(*multi, to_x as int, to_y as int, time_steps as int),
                multi.wf(),
                self.suits(*dp),
                t <= time_steps <= multi.time_limit,
                last_direction < 5,
                moves@.len() == 5,
                forall|i: int|
                    0 <= i < 5 ==> ((#[trigger] moves@[i]).0 as int, moves@[i].1 as int)
                        == stencil()[i],
                -multi.limit() - 1 <= x <= multi.limit() + 1,
                -multi.limit() - 1 <= y <= multi.limit() + 1,
                reversed@.len() == time_steps - t,
                t == time_steps ==> x == to_x && y == to_y,
                reversed@.len() > 0 ==> reversed@[0].x == to_x && reversed@[0].y == to_y,
                forall|k: int|
                    0 <= k < reversed@.len() - 1 ==> near(
                        reversed@[k].x - (#[trigger] reversed@[k + 1]).x,
                        reversed@[k].y - reversed@[k + 1].y,
                    ),
                reversed@.len() > 0 ==> near(
                    reversed@[reversed@.len() - 1].x - x,
                    reversed@[reversed@.len() - 1].y - y,
                ),
                forall|k: int|
                    2 <= k < reversed@.len() ==> Self::held_somewhere::<A>(
                        *multi,
                        (#[trigger] reversed@[k]).x as int,
                        reversed@[k].y as int,
                        time_steps - k,
                    ),
                reversed@.len() >= 2 ==> Self::held_somewhere::<A>(
                    *multi,
                    x as int,
                    y as int,
                    t as int,
                ),
                time_steps > 0 ==> reversed@.len() >= 1 && last_direction == stencil_index(
                    x - reversed@[reversed@.len() - 1].x,
                    y - reversed@[reversed@.len() - 1].y,
                ),
                forall|k: int|
                    1 <= k < reversed@.len() - 1 ==> self.turn::<A>(
                        *multi,
                        reversed@[k + 1],
                        #[trigger] reversed@[k],
                        reversed@[k - 1],
                        time_steps - k,
                    ),
                reversed@.len() >= 2 ==> self.turn::<A>(
                    *multi,
                    point(x as int, y as int),
                    reversed@[reversed@.len() - 1],
                    reversed@[reversed@.len() - 2],
                    t + 1,
                ),
            decreases t,
        {
            let ghost before = reversed@;
            reversed.push(XYPoint { x: x as i64, y: y as i64 });
            proof {
                assert forall|k: int| 1 <= k < reversed@.len() - 1 implies self.turn::<A>(
                    *multi,
                    reversed@[k + 1],
                    #[trigger] reversed@[k],
                    reversed@[k - 1],
                    time_steps - k,
                ) by {
                    assert(reversed@[k] == before[k]);
                    assert(reversed@[k - 1] == before[k - 1]);
                    if k + 1 < before.len() {
                        assert(reversed@[k + 1] == before[k + 1]);
                    }
                }
                assert forall|k: int| 2 <= k < reversed@.len() implies Self::held_somewhere::<A>(
                    *multi,
                    (#[trigger] reversed@[k]).x as int,
                    reversed@[k].y as int,
                    time_steps - k,
                ) by {
                    if k < before.len() {
                        assert(reversed@[k] == before[k]);
                    }
                }
            }
            let variant = variant_after(last_direction);
            assert(multi.table@[t as int]@.len() == multi.kernels@.len());
            assert(multi.table@[t - 1]@.len() == multi.kernels@.len());
            assert(is_square(
                multi.layer(t as int, variant as int),
                (2 * multi.time_limit + 1) as nat,
            ));
            assert(is_square(multi.layer(t - 1, variant as int), (2 * multi.time_limit + 1) as nat));
            assert(self.kernels@[variant as int].wf());
            assert forall|i: int| 0 <= i < 5 implies -1 <= (#[trigger] moves@[i]).0 <= 1 && -1
                <= moves@[i].1 <= 1 by {
                assert((moves@[i].0 as int, moves@[i].1 as int) == stencil()[i]);
            }
            let chosen = match step_back::<A, S>(
                &multi.table[t - 1][variant],
                &multi.table[t][variant],
                multi.time_limit,
                &self.kernels[variant],
                &moves,
                false,
                x,
                y,
                sampler,
            ) {
                Ok(chosen) => chosen,
                Err(e) => {
                    return Err(e);
                },
            };
            let (dx, dy) = moves[chosen];
            assert((dx as int, dy as int) == stencil()[chosen as int]);
            assert(!null::<A>(multi.cell(x + dx, y + dy, t - 1, variant as int)));
            proof {
                assert(choosable::<A>(
                    multi.layer(t - 1, variant as int),
                    multi.layer(t as int, variant as int),
                    multi.limit(),
                    self.kernels@[variant as int],
                    moves@,
                    false,
                    x as int,
                    y as int,
                    chosen as int,
                ));
                assert(before[before.len() - 1] == reversed@[reversed@.len() - 2]);
                assert(self.turn::<A>(
                    *multi,
                    point(x + dx, y + dy),
                    reversed@[reversed@.len() - 1],
                    reversed@[reversed@.len() - 2],
                    t as int,
                ));
            }
            last_direction = chosen;
            x = x + dx;
            y = y + dy;
            t = t - 1;
        }
        if x != 0 || y != 0 {
            return Err(WalkerError::InconsistentPath);
        }
        let walk = assemble(&reversed);
        proof {
            assert forall|s: int| 1 <= s < walk@.len() - 1 implies self.turn::<A>(
                *multi,
                walk@[s - 1],
                #[trigger] walk@[s],
                walk@[s + 1],
                s,
            ) by {
                let k = time_steps - s;
                assert(walk@[s] == reversed@[k]);
                assert(walk@[s + 1] == reversed@[k - 1]);
                if s > 1 {
                    assert(walk@[s - 1] == reversed@[k + 1]);
                } else {
                    assert(walk@[0] == point(0, 0));
                }
            }
            assert forall|s: int| 0 <= s < walk@.len() - 2 implies Self::held_somewhere::<A>(
                *multi,
                (#[trigger] walk@[s]).x as int,
                walk@[s].y as int,
                s,
            ) by {
                if s > 0 {
                    assert(walk@[s] == reversed@[time_steps - s]);
                }
            }
            assert forall|s: int| 0 <= s < walk@.len() - 1 implies near(
                (#[trigger] walk@[s + 1]).x - walk@[s].x,
                walk@[s + 1].y - walk@[s].y,
            ) by {
                assert(walk@[s + 1] == reversed@[time_steps - (s + 1)]);
                if s > 0 {
                    assert(walk@[s] == reversed@[time_steps - s]);
                    assert(reversed@[(time_steps - (s + 1)) + 1] == reversed@[time_steps - s]);
                }
            }
        }
        Ok(walk)
    }
}

impl CorrelatedWalker {
    /// Samples `qty` walks, one after the other, and stops at the first that
    /// fails.
    pub fn generate_paths<A: Arithmetic, S: Sampler>(
        &self,
        dp: &DynamicProgramPool,
        qty: usize,
        to_x: isize,
        to_y: isize,
        time_steps: usize,
        sampler: &mut S,
    ) -> (r: Result<Vec<Walk>, WalkerError>)
        requires
            self.admits(*dp, to_x as int, to_y as int, time_steps as int),
        ensures
            all_answer(
                qty as int,
                r,
                |one: Result<Walk, WalkerError>|
                    self.answers::<A>(*dp, to_x as int, to_y as int, time_steps as int, one),
            ),
    {
        Walker::<A>::generate_paths::<S>(self, dp, qty, to_x, to_y, time_steps, sampler)
    }

    /// The short name of the walker if `short`, else the long one.
    pub open spec fn label(&self, short: bool) -> Seq<char> {
        if short {
            "cwg"@
        } else {
            "Correlated Walker"@
        }
    }

    /// The short name of the walker if `short`, else the long one.
    pub fn name(&self, short: bool) -> (n: String)
        ensures
            n@ == self.label(short),
    {
        if short {
            "cwg".to_owned()
        } else {
            "Correlated Walker".to_owned()
        }
    }
}

} // verus!
