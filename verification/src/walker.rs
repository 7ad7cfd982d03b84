//! Walkers: they sample a path backwards through a computed dynamic program.
//!
//! A walker starts at the target at the last time step.  At each time it
//! weighs the cells from which the current cell can be reached by what they
//! held one step earlier, has one of them drawn, and moves there.  After the
//! last draw it has to stand on the origin.  The draws are made by a
//! [`Sampler`], which the caller brings; the walkers are verified for every
//! answer that a sampler can give.

use crate::arithmetic::{is_null, null, Arithmetic};
use crate::dataset::point::XYPoint;
use crate::dp::recurrence::{addressable, inside, layer_cell};
use crate::dp::simple::DynamicProgram;
use crate::dp::DynamicProgramPool;
use crate::grid::{is_square, rows, shifted_index};
use crate::kernel::Kernel;
use crate::walk::Walk;
use crate::walker::correlated::CorrelatedWalker;
use crate::walker::land_cover::LandCoverWalker;
use crate::walker::levy::LevyWalker;
use crate::walker::multi_step::MultiStepWalker;
use crate::walker::standard::StandardWalker;
use vstd::prelude::*;

pub mod correlated;
pub mod land_cover;
pub mod levy;
pub mod multi_step;
pub mod random;
pub mod standard;

verus! {

/// Why no walk was generated.
#[derive(Debug, Clone, Copy, PartialEq, Eq, Structural)]
pub enum WalkerError {
    /// The walker reads one table and was given a program with several.
    RequiresSingleDynamicProgram,
    /// The walker reads several tables and was given a program with one.
    RequiresMultipleDynamicPrograms,
    /// The table holds no mass at the target.
    NoPathExists,
    /// On the way back every candidate had the weight zero, or the way did
    /// not end on the origin.
    InconsistentPath,
    /// The draw from the weights failed for another reason.
    RandomDistributionError,
}

/// The source of randomness of the walkers.
pub trait Sampler {
    /// Draws an index of `weights`, each with a probability in proportion to
    /// its weight; `None` where the weights allow no draw.
    fn pick(&mut self, weights: &Vec<u64>) -> Option<usize>;

    /// Decides with the probability that the weight `probability` stands for.
    fn chance(&mut self, probability: u64) -> bool;
}

/// Whether `walk` has a point for each time from zero to `time_steps`,
/// starts at the origin and ends at `(to_x, to_y)`.
pub open spec fn leads(walk: Seq<XYPoint>, to_x: int, to_y: int, time_steps: int) -> bool {
    &&& walk.len() == time_steps + 1
    &&& walk[0].x == 0
    &&& walk[0].y == 0
    &&& walk[time_steps].x == to_x
    &&& walk[time_steps].y == to_y
}

/// Whether no step of `walk` is longer than `reach` along either axis.
pub open spec fn strides(walk: Seq<XYPoint>, reach: int) -> bool {
    forall|t: int|
        0 <= t < walk.len() - 1 ==> {
            &&& -reach <= (#[trigger] walk[t + 1]).x - walk[t].x <= reach
            &&& -reach <= walk[t + 1].y - walk[t].y <= reach
        }
}

/// Whether every step of `walk` stays or moves to one of the four neighbours.
pub open spec fn creeps(walk: Seq<XYPoint>) -> bool {
    forall|t: int|
        0 <= t < walk.len() - 1 ==> near(
            (#[trigger] walk[t + 1]).x - walk[t].x,
            walk[t + 1].y - walk[t].y,
        )
}

/// Whether the offset `(dx, dy)` is that of staying or of a step to one of
/// the four neighbours.
pub open spec fn near(dx: int, dy: int) -> bool {
    ||| (dx == 0 && -1 <= dy <= 1)
    ||| (dy == 0 && -1 <= dx <= 1)
}

/// Whether `(to_x, to_y)` is a cell of the grid of `dp` and `time_steps` one
/// of its times.
pub open spec fn reaches(dp: DynamicProgramPool, to_x: int, to_y: int, time_steps: int) -> bool {
    &&& inside(dp.limit(), to_x, to_y)
    &&& 0 <= time_steps <= dp.limit()
}

/// Whether `(to_x, to_y)` is a cell of the grid of `dp` and `time_steps` one
/// of its times.
pub fn is_reached(dp: &DynamicProgramPool, to_x: isize, to_y: isize, time_steps: usize) -> (r: bool)
    requires
        dp.wf(),
    ensures
        r == reaches(*dp, to_x as int, to_y as int, time_steps as int),
{
    let limit = dp.time_limit();
    let bound = limit as isize;
    to_x >= -bound && to_x <= bound && to_y >= -bound && to_y <= bound && time_steps <= limit
}

/// The weight of a candidate: the kernel's weight for the step times what the
/// candidate held a step earlier, over what the current cell holds.
pub open spec fn reweighed<A: Arithmetic>(kernel: u64, earlier: u64, current: u64) -> u64 {
    A::quotient(A::product(kernel, earlier), current)
}

/// The weight of a candidate.
pub fn reweigh<A: Arithmetic>(kernel: u64, earlier: u64, current: u64) -> (w: u64)
    ensures
        w == reweighed::<A>(kernel, earlier, current),
{
    A::over(A::times(kernel, earlier), current)
}

/// Whether none of `weights` holds any mass.
pub open spec fn all_null<A: Arithmetic>(weights: Seq<u64>) -> bool {
    forall|i: int| 0 <= i < weights.len() ==> null::<A>(#[trigger] weights[i])
}

/// Whether none of `weights` holds any mass.
pub fn is_all_null<A: Arithmetic>(weights: &Vec<u64>) -> (r: bool)
    ensures
        r == all_null::<A>(weights@),
{
    let mut i: usize = 0;
    while i < weights.len()
        invariant
            i <= weights@.len(),
            forall|j: int| 0 <= j < i ==> null::<A>(#[trigger] weights@[j]),
        decreases weights@.len() - i,
    {
        if !is_null::<A>(weights[i]) {
            return false;
        }
        i += 1;
    }
    true
}

/// What comes of a draw among candidates.
///
/// `weights` are the weights of the candidates, `masses` what they held a
/// step earlier, `factors` the kernel's weights for the steps to them, and
/// `drawn` is what the sampler answered.  If no weight holds any mass, the
/// path is inconsistent, whatever was drawn.  Else the draw has to name a
/// candidate of which all three hold mass; any other answer is an error of
/// the distribution.
pub open spec fn pick_outcome<A: Arithmetic>(
    weights: Seq<u64>,
    masses: Seq<u64>,
    factors: Seq<u64>,
    drawn: Option<usize>,
) -> Result<usize, WalkerError> {
    if all_null::<A>(weights) {
        Err(WalkerError::InconsistentPath)
    } else {
        match drawn {
            Some(i) => if i < weights.len() && i < masses.len() && i < factors.len() && !null::<A>(
                weights[i as int],
            ) && !null::<A>(masses[i as int]) && !null::<A>(factors[i as int]) {
                Ok(i)
            } else {
                Err(WalkerError::RandomDistributionError)
            },
            None => Err(WalkerError::RandomDistributionError),
        }
    }
}

/// Judges what the sampler answered: see [`pick_outcome`].
pub fn picked<A: Arithmetic>(
    weights: &Vec<u64>,
    masses: &Vec<u64>,
    factors: &Vec<u64>,
    drawn: Option<usize>,
) -> (r: Result<usize, WalkerError>)
    ensures
        r == pick_outcome::<A>(weights@, masses@, factors@, drawn),
{
    if is_all_null::<A>(weights) {
        return Err(WalkerError::InconsistentPath);
    }
    match drawn {
        Some(i) => {
            if i < weights.len() && i < masses.len() && i < factors.len() && !is_null::<A>(
                weights[i],
            ) && !is_null::<A>(masses[i]) && !is_null::<A>(factors[i]) {
                Ok(i)
            } else {
                Err(WalkerError::RandomDistributionError)
            }
        },
        None => Err(WalkerError::RandomDistributionError),
    }
}

/// Has one of the candidates drawn, unless no weight holds any mass, and
/// judges the answer: the result is the outcome of some answer of the
/// sampler.
pub fn draw<A: Arithmetic, S: Sampler>(
    weights: &Vec<u64>,
    masses: &Vec<u64>,
    factors: &Vec<u64>,
    sampler: &mut S,
) -> (r: Result<usize, WalkerError>)
    ensures
        exists|drawn: Option<usize>| r == pick_outcome::<A>(weights@, masses@, factors@, drawn),
        all_null::<A>(weights@) <==> r == Err::<usize, _>(WalkerError::InconsistentPath),
        r matches Ok(i) ==> i < weights@.len() && i < masses@.len() && i < factors@.len()
            && !null::<A>(weights@[i as int]) && !null::<A>(masses@[i as int]) && !null::<A>(
            factors@[i as int],
        ),
        r matches Err(e) ==> e == WalkerError::InconsistentPath || e
            == WalkerError::RandomDistributionError,
{
    let drawn = if is_all_null::<A>(weights) {
        None
    } else {
        sampler.pick(weights)
    };
    picked::<A>(weights, masses, factors, drawn)
}

/// The walk that starts at the origin and then follows `reversed` from its
/// last point to its first.
pub open spec fn way(reversed: Seq<XYPoint>) -> Seq<XYPoint> {
    Seq::new(
        reversed.len() + 1,
        |k: int|
            if k == 0 {
                XYPoint { x: 0, y: 0 }
            } else {
                reversed[reversed.len() - k]
            },
    )
}

/// The walk that starts at the origin and then follows `reversed` from its
/// last point to its first.
pub fn assemble(reversed: &Vec<XYPoint>) -> (walk: Walk)
    ensures
        walk@ == way(reversed@),
{
    let mut points: Vec<XYPoint> = Vec::new();
    points.push(XYPoint { x: 0, y: 0 });
    let mut left: usize = reversed.len();
    while left > 0
        invariant
            left <= reversed@.len(),
            points@.len() == reversed@.len() - left + 1,
            points@[0] == (XYPoint { x: 0, y: 0 }),
            forall|k: int|
                1 <= k <= reversed@.len() - left ==> points@[k] == reversed@[reversed@.len() - k],
        decreases left,
    {
        left -= 1;
        points.push(reversed[left]);
    }
    assert(points@ =~= way(reversed@));
    Walk(points)
}

/// What the cell `(x, y)` of `layer` holds; nothing if the grid has no such
/// cell.
pub open spec fn held(layer: Seq<Seq<u64>>, limit: int, x: int, y: int) -> u64 {
    if inside(limit, x, y) {
        layer_cell(layer, limit, x, y)
    } else {
        0
    }
}

/// What the cell `(x, y)` of `layer` holds; nothing if the grid has no such
/// cell.
pub fn layer_at_or(layer: &Vec<Vec<u64>>, limit: usize, x: isize, y: isize) -> (p: u64)
    requires
        addressable(limit),
        is_square(rows(*layer), (2 * limit + 1) as nat),
    ensures
        p == held(rows(*layer), limit as int, x as int, y as int),
{
    let bound = limit as isize;
    if x >= -bound && x <= bound && y >= -bound && y <= bound {
        let column = shifted_index(limit, x);
        let row = shifted_index(limit, y);
        assert(rows(*layer)[column as int].len() == 2 * limit + 1);
        layer[column][row]
    } else {
        0
    }
}

/// The offset at which the kernel is read for the move `(dx, dy)`: the move
/// itself, or its opposite if `inward`.
pub open spec fn kernel_offset(inward: bool, dx: int, dy: int) -> (int, int) {
    if inward {
        (-dx, -dy)
    } else {
        (dx, dy)
    }
}

/// Whether the candidates `moves` of the cell `(x, y)` can be weighed with
/// `kernel`: the kernel has a weight for each, and each candidate has
/// coordinates.
pub open spec fn weighable(kernel: Kernel, moves: Seq<(isize, isize)>, inward: bool, x: int, y: int) -> bool {
    &&& kernel.wf()
    &&& forall|i: int|
        0 <= i < moves.len() ==> {
            &&& kernel.covers(
                kernel_offset(inward, (#[trigger] moves[i]).0 as int, moves[i].1 as int).0,
                kernel_offset(inward, moves[i].0 as int, moves[i].1 as int).1,
            )
            &&& isize::MIN < moves[i].0
            &&& isize::MIN < moves[i].1
            &&& isize::MIN <= x + moves[i].0 <= isize::MAX
            &&& isize::MIN <= y + moves[i].1 <= isize::MAX
        }
}

/// The weight of candidate `i`.
pub open spec fn candidate_weight<A: Arithmetic>(
    earlier: Seq<Seq<u64>>,
    current: Seq<Seq<u64>>,
    limit: int,
    kernel: Kernel,
    moves: Seq<(isize, isize)>,
    inward: bool,
    x: int,
    y: int,
    i: int,
) -> u64 {
    let at = kernel_offset(inward, moves[i].0 as int, moves[i].1 as int);
    reweighed::<A>(
        kernel.weight(at.0, at.1),
        held(earlier, limit, x + moves[i].0, y + moves[i].1),
        held(current, limit, x, y),
    )
}

/// Whether no candidate has a weight that holds any mass.
pub open spec fn stuck<A: Arithmetic>(
    earlier: Seq<Seq<u64>>,
    current: Seq<Seq<u64>>,
    limit: int,
    kernel: Kernel,
    moves: Seq<(isize, isize)>,
    inward: bool,
    x: int,
    y: int,
) -> bool {
    forall|i: int|
        0 <= i < moves.len() ==> null::<A>(
            #[trigger] candidate_weight::<A>(earlier, current, limit, kernel, moves, inward, x, y, i),
        )
}

/// The kernel's weight for the step to candidate `i`.
pub open spec fn candidate_factor(kernel: Kernel, moves: Seq<(isize, isize)>, inward: bool, i: int) -> u64 {
    let at = kernel_offset(inward, moves[i].0 as int, moves[i].1 as int);
    kernel.weight(at.0, at.1)
}

/// What candidate `i` held a step earlier.
pub open spec fn candidate_mass(
    earlier: Seq<Seq<u64>>,
    limit: int,
    moves: Seq<(isize, isize)>,
    x: int,
    y: int,
    i: int,
) -> u64 {
    held(earlier, limit, x + moves[i].0, y + moves[i].1)
}

/// The weights of the candidates `moves` of the cell `(x, y)`, what they
/// held a step earlier, and the kernel's weights for the steps to them.
///
/// `current` is the layer of the time of `(x, y)` and `earlier` the one a
/// step before.
pub fn weigh<A: Arithmetic>(
    earlier: &Vec<Vec<u64>>,
    current: &Vec<Vec<u64>>,
    limit: usize,
    kernel: &Kernel,
    moves: &Vec<(isize, isize)>,
    inward: bool,
    x: isize,
    y: isize,
) -> (r: (Vec<u64>, Vec<u64>, Vec<u64>))
    requires
        addressable(limit),
        is_square(rows(*earlier), (2 * limit + 1) as nat),
        is_square(rows(*current), (2 * limit + 1) as nat),
        weighable(*kernel, moves@, inward, x as int, y as int),
    ensures
        r.0@.len() == moves@.len(),
        r.1@.len() == moves@.len(),
        r.2@.len() == moves@.len(),
        forall|i: int|
            0 <= i < moves@.len() ==> #[trigger] r.0@[i] == candidate_weight::<A>(
                rows(*earlier),
                rows(*current),
                limit as int,
                *kernel,
                moves@,
                inward,
                x as int,
                y as int,
                i,
            ),
        forall|i: int|
            0 <= i < moves@.len() ==> #[trigger] r.1@[i] == candidate_mass(
                rows(*earlier),
                limit as int,
                moves@,
                x as int,
                y as int,
                i,
            ),
        forall|i: int|
            0 <= i < moves@.len() ==> #[trigger] r.2@[i] == candidate_factor(
                *kernel,
                moves@,
                inward,
                i,
            ),
{
    let here = layer_at_or(current, limit, x, y);
    let mut weights: Vec<u64> = Vec::new();
    let mut masses: Vec<u64> = Vec::new();
    let mut factors: Vec<u64> = Vec::new();
    let mut i: usize = 0;
    while i < moves.len()
        invariant
            i <= moves@.len(),
            addressable(limit),
            is_square(rows(*earlier), (2 * limit + 1) as nat),
            weighable(*kernel, moves@, inward, x as int, y as int),
            here == held(rows(*current), limit as int, x as int, y as int),
            weights@.len() == i,
            masses@.len() == i,
            factors@.len() == i,
            forall|j: int|
                0 <= j < i ==> #[trigger] masses@[j] == candidate_mass(
                    rows(*earlier),
                    limit as int,
                    moves@,
                    x as int,
                    y as int,
                    j,
                ),
            forall|j: int|
                0 <= j < i ==> #[trigger] factors@[j] == candidate_factor(
                    *kernel,
                    moves@,
                    inward,
                    j,
                ),
            forall|j: int|
                0 <= j < i ==> #[trigger] weights@[j] == candidate_weight::<A>(
                    rows(*earlier),
                    rows(*current),
                    limit as int,
                    *kernel,
                    moves@,
                    inward,
                    x as int,
                    y as int,
                    j,
                ),
        decreases moves@.len() - i,
    {
        let (dx, dy) = moves[i];
        let mass = layer_at_or(earlier, limit, x + dx, y + dy);
        let factor = if inward {
            kernel.at(-dx, -dy)
        } else {
            kernel.at(dx, dy)
        };
        weights.push(reweigh::<A>(factor, mass, here));
        masses.push(mass);
        factors.push(factor);
        i += 1;
    }
    (weights, masses, factors)
}

/// The offsets `moves` as pairs of integers.
pub open spec fn offsets_of(moves: Seq<(isize, isize)>) -> Seq<(int, int)> {
    Seq::new(moves.len(), |i: int| (moves[i].0 as int, moves[i].1 as int))
}

/// The pairs of integers `offsets` as moves.
pub open spec fn as_moves(offsets: Seq<(int, int)>) -> Seq<(isize, isize)> {
    Seq::new(offsets.len(), |i: int| (offsets[i].0 as isize, offsets[i].1 as isize))
}

/// Whether the step between the cell `earlier` and the cell `later`, which
/// is a step later, may have been taken on the way back: the kernel's weight
/// for it holds mass, and so does the weight that it had as a candidate.
///
/// `before` is the layer of the time of `earlier` and `after` that of the
/// time of `later`.
pub open spec fn taken<A: Arithmetic>(
    before: Seq<Seq<u64>>,
    after: Seq<Seq<u64>>,
    limit: int,
    kernel: Kernel,
    inward: bool,
    earlier: XYPoint,
    later: XYPoint,
) -> bool {
    let at = kernel_offset(inward, earlier.x - later.x, earlier.y - later.y);
    &&& !null::<A>(kernel.weight(at.0, at.1))
    &&& !null::<A>(
        reweighed::<A>(
            kernel.weight(at.0, at.1),
            held(before, limit, earlier.x as int, earlier.y as int),
            held(after, limit, later.x as int, later.y as int),
        ),
    )
}

/// Whether candidate `i` may be stepped to: its weight, what it held a step
/// earlier and the kernel's weight for the step all hold mass.
pub open spec fn choosable<A: Arithmetic>(
    earlier: Seq<Seq<u64>>,
    current: Seq<Seq<u64>>,
    limit: int,
    kernel: Kernel,
    moves: Seq<(isize, isize)>,
    inward: bool,
    x: int,
    y: int,
    i: int,
) -> bool {
    &&& 0 <= i < moves.len()
    &&& !null::<A>(candidate_weight::<A>(earlier, current, limit, kernel, moves, inward, x, y, i))
    &&& !null::<A>(candidate_mass(earlier, limit, moves, x, y, i))
    &&& !null::<A>(candidate_factor(kernel, moves, inward, i))
}

/// One step back from `(x, y)`: weighs the candidates `moves` and has one
/// drawn.
///
/// `current` is the layer of the time of `(x, y)` and `earlier` the one a
/// step before.  The result is the index of the move that was drawn; it is
/// one that may be stepped to, and the cell it leads to lies on the grid.
pub fn step_back<A: Arithmetic, S: Sampler>(
    earlier: &Vec<Vec<u64>>,
    current: &Vec<Vec<u64>>,
    limit: usize,
    kernel: &Kernel,
    moves: &Vec<(isize, isize)>,
    inward: bool,
    x: isize,
    y: isize,
    sampler: &mut S,
) -> (r: Result<usize, WalkerError>)
    requires
        addressable(limit),
        is_square(rows(*earlier), (2 * limit + 1) as nat),
        is_square(rows(*current), (2 * limit + 1) as nat),
        weighable(*kernel, moves@, inward, x as int, y as int),
    ensures
        stuck::<A>(
            rows(*earlier),
            rows(*current),
            limit as int,
            *kernel,
            moves@,
            inward,
            x as int,
            y as int,
        ) <==> r == Err::<usize, _>(WalkerError::InconsistentPath),
        r matches Ok(i) ==> {
            &&& choosable::<A>(
                rows(*earlier),
                rows(*current),
                limit as int,
                *kernel,
                moves@,
                inward,
                x as int,
                y as int,
                i as int,
            )
            &&& inside(limit as int, x + moves@[i as int].0, y + moves@[i as int].1)
            &&& !null::<A>(
                layer_cell(
                    rows(*earlier),
                    limit as int,
                    x + moves@[i as int].0,
                    y + moves@[i as int].1,
                ),
            )
        },
        r matches Err(e) ==> e == WalkerError::InconsistentPath || e
            == WalkerError::RandomDistributionError,
{
    let (weights, masses, factors) = weigh::<A>(earlier, current, limit, kernel, moves, inward, x, y);
    proof {
        let e = rows(*earlier);
        let c = rows(*current);
        let l = limit as int;
        if all_null::<A>(weights@) {
            assert forall|j: int| 0 <= j < moves@.len() implies null::<A>(
                #[trigger] candidate_weight::<A>(e, c, l, *kernel, moves@, inward, x as int, y as int, j),
            ) by {
                assert(null::<A>(weights@[j]));
            }
        }
        if stuck::<A>(e, c, l, *kernel, moves@, inward, x as int, y as int) {
            assert forall|j: int| 0 <= j < weights@.len() implies null::<A>(
                #[trigger] weights@[j],
            ) by {
                assert(null::<A>(
                    candidate_weight::<A>(e, c, l, *kernel, moves@, inward, x as int, y as int, j),
                ));
            }
        }
    }
    draw::<A, S>(&weights, &masses, &factors, sampler)
}

/// Whether every point of `walk` held mass at its time in `dp`.
pub open spec fn supported<A: Arithmetic>(walk: Seq<XYPoint>, dp: DynamicProgram) -> bool {
    forall|t: int|
        0 <= t < walk.len() ==> dp.covers((#[trigger] walk[t]).x as int, walk[t].y as int)
            && !null::<A>(dp.cell(walk[t].x as int, walk[t].y as int, t))
}

/// The point `(x, y)`.
pub open spec fn point(x: int, y: int) -> XYPoint {
    XYPoint { x: x as i64, y: y as i64 }
}

/// Whether every step of `walk` is linked: the point before the step, the
/// point after it and the time after it satisfy `linked`.
pub open spec fn paced(walk: Seq<XYPoint>, linked: spec_fn(XYPoint, XYPoint, int) -> bool) -> bool {
    forall|t: int| 1 <= t < walk.len() ==> linked(walk[t - 1], #[trigger] walk[t], t)
}

/// Whether `reversed` and `(x, y)` are a way back from `(to_x, to_y)` at time
/// `time_steps` to `(x, y)` at time `t`: `reversed` holds the points of the
/// times after `t`, the last time first, every point held mass at its time,
/// and every step is linked.
pub open spec fn backtracked<A: Arithmetic>(
    dp: DynamicProgram,
    reversed: Seq<XYPoint>,
    x: int,
    y: int,
    t: int,
    to_x: int,
    to_y: int,
    time_steps: int,
    linked: spec_fn(XYPoint, XYPoint, int) -> bool,
) -> bool {
    &&& 0 <= t <= time_steps <= dp.time_limit
    &&& dp.wf()
    &&& dp.covers(x, y)
    &&& !null::<A>(dp.cell(x, y, t))
    &&& reversed.len() == time_steps - t
    &&& t == time_steps ==> x == to_x && y == to_y
    &&& reversed.len() > 0 ==> reversed[0].x == to_x && reversed[0].y == to_y
    &&& forall|k: int|
        0 <= k < reversed.len() ==> dp.covers((#[trigger] reversed[k]).x as int, reversed[k].y as int)
            && !null::<A>(dp.cell(reversed[k].x as int, reversed[k].y as int, time_steps - k))
    &&& forall|k: int|
        0 <= k < reversed.len() - 1 ==> linked(
            #[trigger] reversed[k + 1],
            reversed[k],
            time_steps - k,
        )
    &&& reversed.len() > 0 ==> linked(point(x, y), reversed[reversed.len() - 1], t + 1)
}

/// A way back stays one when the current point is noted and a linked step
/// leads to a cell that held mass a step earlier.
pub proof fn lemma_backtracked_step<A: Arithmetic>(
    dp: DynamicProgram,
    reversed: Seq<XYPoint>,
    x: int,
    y: int,
    t: int,
    to_x: int,
    to_y: int,
    time_steps: int,
    linked: spec_fn(XYPoint, XYPoint, int) -> bool,
    nx: int,
    ny: int,
)
    requires
        backtracked::<A>(dp, reversed, x, y, t, to_x, to_y, time_steps, linked),
        t > 0,
        dp.covers(nx, ny),
        !null::<A>(dp.cell(nx, ny, t - 1)),
        linked(point(nx, ny), point(x, y), t),
    ensures
        backtracked::<A>(dp, reversed.push(point(x, y)), nx, ny, t - 1, to_x, to_y, time_steps, linked),
{
    let longer = reversed.push(point(x, y));
    assert forall|k: int| 0 <= k < longer.len() implies dp.covers(
        (#[trigger] longer[k]).x as int,
        longer[k].y as int,
    ) && !null::<A>(dp.cell(longer[k].x as int, longer[k].y as int, time_steps - k)) by {
        if k < reversed.len() {
            assert(longer[k] == reversed[k]);
        }
    }
    assert forall|k: int| 0 <= k < longer.len() - 1 implies linked(
        #[trigger] longer[k + 1],
        longer[k],
        time_steps - k,
    ) by {
        assert(longer[k] == reversed[k]);
        if k + 1 < reversed.len() {
            assert(longer[k + 1] == reversed[k + 1]);
        }
    }
}

/// A way back that has come to the origin at time zero is a walk from the
/// origin to the target, of which every point held mass at its time and every
/// step is linked.
pub proof fn lemma_way<A: Arithmetic>(
    dp: DynamicProgram,
    reversed: Seq<XYPoint>,
    to_x: int,
    to_y: int,
    time_steps: int,
    linked: spec_fn(XYPoint, XYPoint, int) -> bool,
)
    requires
        backtracked::<A>(dp, reversed, 0, 0, 0, to_x, to_y, time_steps, linked),
    ensures
        leads(way(reversed), to_x, to_y, time_steps),
        supported::<A>(way(reversed), dp),
        paced(way(reversed), linked),
{
    let walk = way(reversed);
    assert forall|s: int| 0 <= s < walk.len() implies dp.covers(
        (#[trigger] walk[s]).x as int,
        walk[s].y as int,
    ) && !null::<A>(dp.cell(walk[s].x as int, walk[s].y as int, s)) by {
        if s > 0 {
            assert(walk[s] == reversed[time_steps - s]);
        }
    }
    assert forall|s: int| 1 <= s < walk.len() implies linked(walk[s - 1], #[trigger] walk[s], s) by {
        assert(walk[s] == reversed[time_steps - s]);
        if s > 1 {
            assert(walk[s - 1] == reversed[(time_steps - s) + 1]);
        } else {
            assert(walk[0] == point(0, 0));
        }
    }
}

/// Steps that are linked by a condition that bounds their length are no
/// longer than the bound.
pub proof fn lemma_paced_strides(
    walk: Seq<XYPoint>,
    linked: spec_fn(XYPoint, XYPoint, int) -> bool,
    reach: int,
)
    requires
        paced(walk, linked),
        forall|e: XYPoint, l: XYPoint, t: int| #[trigger]
            linked(e, l, t) ==> -reach <= l.x - e.x <= reach && -reach <= l.y - e.y <= reach,
    ensures
        strides(walk, reach),
{
    assert forall|t: int| 0 <= t < walk.len() - 1 implies {
        &&& -reach <= (#[trigger] walk[t + 1]).x - walk[t].x <= reach
        &&& -reach <= walk[t + 1].y - walk[t].y <= reach
    } by {
        assert(linked(walk[t], walk[t + 1], t + 1));
    }
}

/// Steps that are linked by a condition under which they stay or lead to a
/// neighbour creep.
pub proof fn lemma_paced_creeps(walk: Seq<XYPoint>, linked: spec_fn(XYPoint, XYPoint, int) -> bool)
    requires
        paced(walk, linked),
        forall|e: XYPoint, l: XYPoint, t: int| #[trigger]
            linked(e, l, t) ==> near(l.x - e.x, l.y - e.y),
    ensures
        creeps(walk),
{
    assert forall|t: int| 0 <= t < walk.len() - 1 implies near(
        (#[trigger] walk[t + 1]).x - walk[t].x,
        walk[t + 1].y - walk[t].y,
    ) by {
        assert(linked(walk[t], walk[t + 1], t + 1));
    }
}

/// Ends a way back that has come to `(x, y)`: the walk, if that is the
/// origin, and else the word that the path is inconsistent.
pub fn conclude(reversed: &Vec<XYPoint>, x: isize, y: isize) -> (r: Result<Walk, WalkerError>)
    ensures
        (x != 0 || y != 0) <==> r == Err::<Walk, _>(WalkerError::InconsistentPath),
        (x == 0 && y == 0) <==> r is Ok,
        r matches Ok(walk) ==> walk@ == way(reversed@),
{
    if x != 0 || y != 0 {
        return Err(WalkerError::InconsistentPath);
    }
    Ok(assemble(reversed))
}

/// Whether `r` is what comes of asking `qty` times for a walk, one time
/// after the other, up to the first time that fails: as many walks as were
/// asked for, each an answer to one request, or the error that was the
/// answer to one.  `answers` says what an answer to one request is.
pub open spec fn all_answer(
    qty: int,
    r: Result<Vec<Walk>, WalkerError>,
    answers: spec_fn(Result<Walk, WalkerError>) -> bool,
) -> bool {
    &&& qty == 0 ==> r is Ok
    &&& r matches Ok(walks) ==> walks@.len() == qty && forall|i: int|
        0 <= i < qty ==> answers(Ok::<Walk, WalkerError>(#[trigger] walks@[i]))
    &&& r matches Err(e) ==> qty > 0 && answers(Err::<Walk, WalkerError>(e))
}

/// What every walker offers.
pub trait Walker<A: Arithmetic> {
    /// Whether the walker can be asked for a walk on `dp` to `(to_x, to_y)`
    /// in `time_steps` steps.  A program of a kind that the walker does not
    /// read can always be handed to it.
    spec fn allows(&self, dp: DynamicProgramPool, to_x: int, to_y: int, time_steps: int) -> bool;

    /// Whether `r` is an answer that the walker may give when it is asked
    /// for a walk on `dp` to `(to_x, to_y)` in `time_steps` steps.
    spec fn replies(
        &self,
        dp: DynamicProgramPool,
        to_x: int,
        to_y: int,
        time_steps: int,
        r: Result<Walk, WalkerError>,
    ) -> bool;

    /// The short name of the walker if `short`, else the long one.
    spec fn title(&self, short: bool) -> Seq<char>;

    /// Samples one walk from the origin to `(to_x, to_y)` in `time_steps`
    /// steps.
    fn generate_path<S: Sampler>(
        &self,
        dp: &DynamicProgramPool,
        to_x: isize,
        to_y: isize,
        time_steps: usize,
        sampler: &mut S,
    ) -> (r: Result<Walk, WalkerError>)
        requires
            self.allows(*dp, to_x as int, to_y as int, time_steps as int),
        ensures
            self.replies(*dp, to_x as int, to_y as int, time_steps as int, r),
    ;

    /// Samples `qty` walks, one after the other, and stops at the first that
    /// fails.
    fn generate_paths<S: Sampler>(
        &self,
        dp: &DynamicProgramPool,
        qty: usize,
        to_x: isize,
        to_y: isize,
        time_steps: usize,
        sampler: &mut S,
    ) -> (r: Result<Vec<Walk>, WalkerError>)
        requires
            self.allows(*dp, to_x as int, to_y as int, time_steps as int),
        ensures
            all_answer(
                qty as int,
                r,
                |one: Result<Walk, WalkerError>|
                    self.replies(*dp, to_x as int, to_y as int, time_steps as int, one),
            ),
    {
        let mut paths: Vec<Walk> = Vec::new();
        let mut made: usize = 0;
        while made < qty
            invariant
                made <= qty,
                self.allows(*dp, to_x as int, to_y as int, time_steps as int),
                paths@.len() == made,
                forall|i: int|
                    0 <= i < made ==> self.replies(
                        *dp,
                        to_x as int,
                        to_y as int,
                        time_steps as int,
                        Ok::<Walk, WalkerError>(#[trigger] paths@[i]),
                    ),
            decreases qty - made,
        {
            match self.generate_path::<S>(dp, to_x, to_y, time_steps, sampler) {
                Ok(path) => {
                    paths.push(path);
                },
                Err(e) => {
                    return Err(e);
                },
            }
            made += 1;
        }
        Ok(paths)
    }

    /// The short name of the walker if `short`, else the long one.
    fn name(&self, short: bool) -> (n: String)
        ensures
            n@ == self.title(short),
    ;
}

impl<A: Arithmetic> Walker<A> for StandardWalker {
    open spec fn allows(&self, dp: DynamicProgramPool, to_x: int, to_y: int, time_steps: int) -> bool {
        self.admits(dp, to_x, to_y, time_steps)
    }

    open spec fn replies(
        &self,
        dp: DynamicProgramPool,
        to_x: int,
        to_y: int,
        time_steps: int,
        r: Result<Walk, WalkerError>,
    ) -> bool {
        self.answers::<A>(dp, to_x, to_y, time_steps, r)
    }

    open spec fn title(&self, short: bool) -> Seq<char> {
        self.label(short)
    }

    fn generate_path<S: Sampler>(
        &self,
        dp: &DynamicProgramPool,
        to_x: isize,
        to_y: isize,
        time_steps: usize,
        sampler: &mut S,
    ) -> (r: Result<Walk, WalkerError>) {
        StandardWalker::generate_path::<A, S>(self, dp, to_x, to_y, time_steps, sampler)
    }

    fn name(&self, short: bool) -> (n: String) {
        StandardWalker::name(self, short)
    }
}

impl<A: Arithmetic> Walker<A> for CorrelatedWalker {
    open spec fn allows(&self, dp: DynamicProgramPool, to_x: int, to_y: int, time_steps: int) -> bool {
        self.admits(dp, to_x, to_y, time_steps)
    }

    open spec fn replies(
        &self,
        dp: DynamicProgramPool,
        to_x: int,
        to_y: int,
        time_steps: int,
        r: Result<Walk, WalkerError>,
    ) -> bool {
        self.answers::<A>(dp, to_x, to_y, time_steps, r)
    }

    open spec fn title(&self, short: bool) -> Seq<char> {
        self.label(short)
    }

    fn generate_path<S: Sampler>(
        &self,
        dp: &DynamicProgramPool,
        to_x: isize,
        to_y: isize,
        time_steps: usize,
        sampler: &mut S,
    ) -> (r: Result<Walk, WalkerError>) {
        CorrelatedWalker::generate_path::<A, S>(self, dp, to_x, to_y, time_steps, sampler)
    }

    fn name(&self, short: bool) -> (n: String) {
        CorrelatedWalker::name(self, short)
    }
}

impl<A: Arithmetic> Walker<A> for MultiStepWalker {
    open spec fn allows(&self, dp: DynamicProgramPool, to_x: int, to_y: int, time_steps: int) -> bool {
        self.admits(dp, to_x, to_y, time_steps)
    }

    open spec fn replies(
        &self,
        dp: DynamicProgramPool,
        to_x: int,
        to_y: int,
        time_steps: int,
        r: Result<Walk, WalkerError>,
    ) -> bool {
        self.answers::<A>(dp, to_x, to_y, time_steps, r)
    }

    open spec fn title(&self, short: bool) -> Seq<char> {
        self.label(short)
    }

    fn generate_path<S: Sampler>(
        &self,
        dp: &DynamicProgramPool,
        to_x: isize,
        to_y: isize,
        time_steps: usize,
        sampler: &mut S,
    ) -> (r: Result<Walk, WalkerError>) {
        MultiStepWalker::generate_path::<A, S>(self, dp, to_x, to_y, time_steps, sampler)
    }

    fn name(&self, short: bool) -> (n: String) {
        MultiStepWalker::name(self, short)
    }
}

impl<A: Arithmetic> Walker<A> for LevyWalker {
    open spec fn allows(&self, dp: DynamicProgramPool, to_x: int, to_y: int, time_steps: int) -> bool {
        self.admits(dp, to_x, to_y, time_steps)
    }

    open spec fn replies(
        &self,
        dp: DynamicProgramPool,
        to_x: int,
        to_y: int,
        time_steps: int,
        r: Result<Walk, WalkerError>,
    ) -> bool {
        self.answers::<A>(dp, to_x, to_y, time_steps, r)
    }

    open spec fn title(&self, short: bool) -> Seq<char> {
        self.label(short)
    }

    fn generate_path<S: Sampler>(
        &self,
        dp: &DynamicProgramPool,
        to_x: isize,
        to_y: isize,
        time_steps: usize,
        sampler: &mut S,
    ) -> (r: Result<Walk, WalkerError>) {
        LevyWalker::generate_path::<A, S>(self, dp, to_x, to_y, time_steps, sampler)
    }

    fn name(&self, short: bool) -> (n: String) {
        LevyWalker::name(self, short)
    }
}

impl<A: Arithmetic> Walker<A> for LandCoverWalker {
    open spec fn allows(&self, dp: DynamicProgramPool, to_x: int, to_y: int, time_steps: int) -> bool {
        self.admits(dp, to_x, to_y, time_steps)
    }

    open spec fn replies(
        &self,
        dp: DynamicProgramPool,
        to_x: int,
        to_y: int,
        time_steps: int,
        r: Result<Walk, WalkerError>,
    ) -> bool {
        self.answers::<A>(dp, to_x, to_y, time_steps, r)
    }

    open spec fn title(&self, short: bool) -> Seq<char> {
        self.label(short)
    }

    fn generate_path<S: Sampler>(
        &self,
        dp: &DynamicProgramPool,
        to_x: isize,
        to_y: isize,
        time_steps: usize,
        sampler: &mut S,
    ) -> (r: Result<Walk, WalkerError>) {
        LandCoverWalker::generate_path::<A, S>(self, dp, to_x, to_y, time_steps, sampler)
    }

    fn name(&self, short: bool) -> (n: String) {
        LandCoverWalker::name(self, short)
    }
}

/// A walker of any kind.
#[derive(Debug)]
pub enum WalkerType {
    Standard(StandardWalker),
    Correlated(CorrelatedWalker),
    MultiStep(MultiStepWalker),
    Levy(LevyWalker),
    LandCover(LandCoverWalker),
}

impl WalkerType {
    /// Whether the walker can be asked for a walk on `dp` to `(to_x, to_y)`
    /// in `time_steps` steps.
    pub open spec fn admits(
        &self,
        dp: DynamicProgramPool,
        to_x: int,
        to_y: int,
        time_steps: int,
    ) -> bool {
        match self {
            WalkerType::Standard(walker) => walker.admits(dp, to_x, to_y, time_steps),
            WalkerType::Correlated(walker) => walker.admits(dp, to_x, to_y, time_steps),
            WalkerType::MultiStep(walker) => walker.admits(dp, to_x, to_y, time_steps),
            WalkerType::Levy(walker) => walker.admits(dp, to_x, to_y, time_steps),
            WalkerType::LandCover(walker) => walker.admits(dp, to_x, to_y, time_steps),
        }
    }

    /// Whether `r` is an answer that the walker may give when it is asked
    /// for a walk on `dp` to `(to_x, to_y)` in `time_steps` steps.
    pub open spec fn answers<A: Arithmetic>(
        &self,
        dp: DynamicProgramPool,
        to_x: int,
        to_y: int,
        time_steps: int,
        r: Result<Walk, WalkerError>,
    ) -> bool {
        match self {
            WalkerType::Standard(walker) => walker.answers::<A>(dp, to_x, to_y, time_steps, r),
            WalkerType::Correlated(walker) => walker.answers::<A>(dp, to_x, to_y, time_steps, r),
            WalkerType::MultiStep(walker) => walker.answers::<A>(dp, to_x, to_y, time_steps, r),
            WalkerType::Levy(walker) => walker.answers::<A>(dp, to_x, to_y, time_steps, r),
            WalkerType::LandCover(walker) => walker.answers::<A>(dp, to_x, to_y, time_steps, r),
        }
    }

    /// The short name of the walker if `short`, else the long one.
    pub open spec fn label(&self, short: bool) -> Seq<char> {
        match self {
            WalkerType::Standard(walker) => walker.label(short),
            WalkerType::Correlated(walker) => walker.label(short),
            WalkerType::MultiStep(walker) => walker.label(short),
            WalkerType::Levy(walker) => walker.label(short),
            WalkerType::LandCover(walker) => walker.label(short),
        }
    }

    /// The error with which the walker refuses a program of the kind of
    /// `dp`, if it reads programs of the other kind.
    pub open spec fn mismatch(&self, dp: DynamicProgramPool) -> Option<WalkerError> {
        match (self, dp) {
            (WalkerType::Correlated(_), DynamicProgramPool::Single(_)) => Some(
                WalkerError::RequiresMultipleDynamicPrograms,
            ),
            (WalkerType::Correlated(_), DynamicProgramPool::Multiple(_)) => None,
            (_, DynamicProgramPool::Single(_)) => None,
            (_, DynamicProgramPool::Multiple(_)) => Some(WalkerError::RequiresSingleDynamicProgram),
        }
    }

    /// Whether the walker can work on `dp`.
    pub open spec fn suited(&self, dp: DynamicProgramPool) -> bool {
        match self {
            WalkerType::Standard(_) => true,
            WalkerType::Correlated(walker) => walker.suits(dp),
            WalkerType::MultiStep(walker) => walker.suits(dp.limit()),
            WalkerType::Levy(walker) => walker.suits(dp.limit()),
            WalkerType::LandCover(walker) => walker.suits(dp.limit()),
        }
    }

    /// The error with which the walker refuses a program of the kind of
    /// `dp`, if it reads programs of the other kind.
    pub fn refusal(&self, dp: &DynamicProgramPool) -> (r: Option<WalkerError>)
        ensures
            r == self.mismatch(*dp),
    {
        match (self, dp) {
            (WalkerType::Correlated(_), DynamicProgramPool::Single(_)) => Some(
                WalkerError::RequiresMultipleDynamicPrograms,
            ),
            (WalkerType::Correlated(_), DynamicProgramPool::Multiple(_)) => None,
            (_, DynamicProgramPool::Single(_)) => None,
            (_, DynamicProgramPool::Multiple(_)) => Some(WalkerError::RequiresSingleDynamicProgram),
        }
    }

    /// Whether the walker can work on `dp`.
    pub fn is_suited(&self, dp: &DynamicProgramPool) -> (r: bool)
        requires
            dp.wf(),
        ensures
            r == self.suited(*dp),
    {
        match self {
            WalkerType::Standard(_) => true,
            WalkerType::Correlated(walker) => walker.is_suited(dp),
            WalkerType::MultiStep(walker) => walker.is_suited(dp.time_limit()),
            WalkerType::Levy(walker) => walker.is_suited(dp.time_limit()),
            WalkerType::LandCover(walker) => walker.is_suited(dp.time_limit()),
        }
    }

    /// Whether the walker can be asked for a walk on `dp` to `(to_x, to_y)`
    /// in `time_steps` steps.
    pub fn is_admitted(
        &self,
        dp: &DynamicProgramPool,
        to_x: isize,
        to_y: isize,
        time_steps: usize,
    ) -> (r: bool)
        ensures
            r == self.admits(*dp, to_x as int, to_y as int, time_steps as int),
    {
        if self.refusal(dp).is_some() {
            return true;
        }
        dp.is_wf() && self.is_suited(dp) && is_reached(dp, to_x, to_y, time_steps)
    }

    /// Samples one walk from the origin to `(to_x, to_y)` in `time_steps`
    /// steps.
    pub fn generate_path<A: Arithmetic, S: Sampler>(
        &self,
        dp: &DynamicProgramPool,
        to_x: isize,
        to_y: isize,
        time_steps: usize,
        sampler: &mut S,
    ) -> (r: Result<Walk, WalkerError>)
        requires
            self.admits(*dp, to_x as int, to_y as int, time_steps as int),
        ensures
            self.answers::<A>(*dp, to_x as int, to_y as int, time_steps as int, r),
    {
        match self {
            WalkerType::Standard(walker) => walker.generate_path::<A, S>(
                dp,
                to_x,
                to_y,
                time_steps,
                sampler,
            ),
            WalkerType::Correlated(walker) => walker.generate_path::<A, S>(
                dp,
                to_x,
                to_y,
                time_steps,
                sampler,
            ),
            WalkerType::MultiStep(walker) => walker.generate_path::<A, S>(
                dp,
                to_x,
                to_y,
                time_steps,
                sampler,
            ),
            WalkerType::Levy(walker) => walker.generate_path::<A, S>(
                dp,
                to_x,
                to_y,
                time_steps,
                sampler,
            ),
            WalkerType::LandCover(walker) => walker.generate_path::<A, S>(
                dp,
                to_x,
                to_y,
                time_steps,
                sampler,
            ),
        }
    }

    /// Samples `qty` walks, one after the other, and stops at the first that
    /// fails.
    pub fn generate_paths<A: Arithmetic, S: Sampler>(
        &self,
        dp: &DynamicProgramPool,
        qty: usize,
        to_x: isize,
        to_y: isize,
        time_steps: usize,
        sampler: &mut S,
    ) -> (r: Result<Vec<Walk>, WalkerError>)
        requires
            self.admits(*dp, to_x as int, to_y as int, time_steps as int),
        ensures
            all_answer(
                qty as int,
                r,
                |one: Result<Walk, WalkerError>|
                    self.answers::<A>(*dp, to_x as int, to_y as int, time_steps as int, one),
            ),
    {
        Walker::<A>::generate_paths::<S>(self, dp, qty, to_x, to_y, time_steps, sampler)
    }

    /// The short name of the walker if `short`, else the long one.
    pub fn name(&self, short: bool) -> (n: String)
        ensures
            n@ == self.label(short),
    {
        match self {
            WalkerType::Standard(walker) => walker.name(short),
            WalkerType::Correlated(walker) => walker.name(short),
            WalkerType::MultiStep(walker) => walker.name(short),
            WalkerType::Levy(walker) => walker.name(short),
            WalkerType::LandCover(walker) => walker.name(short),
        }
    }
}

impl<A: Arithmetic> Walker<A> for WalkerType {
    open spec fn allows(&self, dp: DynamicProgramPool, to_x: int, to_y: int, time_steps: int) -> bool {
        self.admits(dp, to_x, to_y, time_steps)
    }

    open spec fn replies(
        &self,
        dp: DynamicProgramPool,
        to_x: int,
        to_y: int,
        time_steps: int,
        r: Result<Walk, WalkerError>,
    ) -> bool {
        self.answers::<A>(dp, to_x, to_y, time_steps, r)
    }

    open spec fn title(&self, short: bool) -> Seq<char> {
        self.label(short)
    }

    fn generate_path<S: Sampler>(
        &self,
        dp: &DynamicProgramPool,
        to_x: isize,
        to_y: isize,
        time_steps: usize,
        sampler: &mut S,
    ) -> (r: Result<Walk, WalkerError>) {
        WalkerType::generate_path::<A, S>(self, dp, to_x, to_y, time_steps, sampler)
    }

    fn name(&self, short: bool) -> (n: String) {
        WalkerType::name(self, short)
    }
}

} // verus!
