//! The correlated random walk: the direction of the last step is more likely
//! than the others.

use crate::arithmetic::Arithmetic;
use crate::grid::{is_square, is_uniform, quarter_turn, turned};
use crate::kernel::biased_rw::{biased_rw_cell, write_biased_rw};
use crate::kernel::generator::{
    filled, prepared, same_names, KernelGenerator, KernelGeneratorError,
};
use crate::kernel::{Direction, Kernel};
use vstd::prelude::*;

verus! {

/// The direction of kernel number `variant`: north, east, south, west, stay.
pub open spec fn direction_of(variant: int) -> Direction {
    if variant == 0 {
        Direction::North
    } else if variant == 1 {
        Direction::East
    } else if variant == 2 {
        Direction::South
    } else if variant == 3 {
        Direction::West
    } else {
        Direction::Stay
    }
}

/// The weight in column `x` and row `y` of kernel number `variant` of the
/// correlated random walk: the kernel of the walk that is biased toward the
/// direction of the variant.
pub open spec fn correlated_rw_cell<A: Arithmetic>(
    persistence: u64,
    variant: usize,
    x: usize,
    y: usize,
) -> u64 {
    biased_rw_cell::<A>(persistence, direction_of(variant as int), x, y)
}

/// Makes each of five kernels three columns wide and clears it.
pub fn clear_five(kernels: &mut Vec<Kernel>) -> (r: Result<(), KernelGeneratorError>)
    ensures
        same_names(final(kernels)@, old(kernels)@),
        old(kernels)@.len() != 5 <==> r == Err::<(), _>(KernelGeneratorError::NotEnoughKernels),
        old(kernels)@.len() == 5 <==> r is Ok,
        r is Ok ==> prepared(final(kernels)@, 5, 3),
        r is Err ==> final(kernels)@ == old(kernels)@,
{
    if kernels.len() != 5 {
        return Err(KernelGeneratorError::NotEnoughKernels);
    }
    let mut v: usize = 0;
    while v < 5
        invariant
            v <= 5,
            kernels@.len() == 5,
            same_names(kernels@, old(kernels)@),
            forall|u: int| 0 <= u < v ==> is_uniform((#[trigger] kernels@[u]).grid(), 3, 0),
        decreases 5 - v,
    {
        let ghost before = kernels@;
        let _ = kernels[v].initialize(3);
        assert forall|u: int| 0 <= u < v + 1 implies is_uniform(
            (#[trigger] kernels@[u]).grid(),
            3,
            0,
        ) by {
            if u < v {
                assert(kernels@[u] == before[u]);
            }
        }
        assert forall|u: int| 0 <= u < 5 implies (#[trigger] kernels@[u]).names()
            == old(kernels)@[u].names() by {
            if u != v {
                assert(kernels@[u] == before[u]);
            }
            assert(before[u].names() == old(kernels)@[u].names());
        }
        v += 1;
    }
    Ok(())
}

/// Generates the five kernels of the correlated random walk.
pub struct CorrelatedRwGenerator {
    /// The weight of the step in the direction of the last step.
    pub persistence: u64,
}

impl CorrelatedRwGenerator {
    /// Makes each of the five kernels three columns wide and clears it.
    pub fn clear(&self, kernels: &mut Vec<Kernel>) -> (r: Result<(), KernelGeneratorError>)
        ensures
            same_names(final(kernels)@, old(kernels)@),
            old(kernels)@.len() != 5 <==> r == Err::<(), _>(KernelGeneratorError::NotEnoughKernels),
            old(kernels)@.len() == 5 <==> r is Ok,
            r is Ok ==> prepared(final(kernels)@, 5, 3),
            r is Err ==> final(kernels)@ == old(kernels)@,
    {
        clear_five(kernels)
    }

    /// Writes the weights into the five kernels.
    pub fn fill<A: Arithmetic>(&self, kernels: &mut Vec<Kernel>) -> (r: Result<
        (),
        KernelGeneratorError,
    >)
        requires
            old(kernels)@.len() == 5 ==> prepared(old(kernels)@, 5, 3),
        ensures
            same_names(final(kernels)@, old(kernels)@),
            old(kernels)@.len() != 5 <==> r == Err::<(), _>(KernelGeneratorError::NotEnoughKernels),
            old(kernels)@.len() == 5 <==> r is Ok,
            r is Err ==> final(kernels)@ == old(kernels)@,
            r is Ok ==> forall|v: int|
                0 <= v < 5 ==> filled(
                    #[trigger] final(kernels)@[v],
                    3,
                    |x: usize, y: usize| correlated_rw_cell::<A>(self.persistence, v as usize, x, y),
                ),
    {
        if kernels.len() != 5 {
            return Err(KernelGeneratorError::NotEnoughKernels);
        }
        let directions = Direction::all();
        let mut v: usize = 0;
        while v < 5
            invariant
                v <= 5,
                kernels@.len() == 5,
                same_names(kernels@, old(kernels)@),
                forall|d: Direction| directions@[d.rank()] == d,
                forall|u: int| v <= u < 5 ==> is_uniform((#[trigger] kernels@[u]).grid(), 3, 0),
                forall|u: int|
                    0 <= u < v ==> filled(
                        #[trigger] kernels@[u],
                        3,
                        |x: usize, y: usize|
                            correlated_rw_cell::<A>(self.persistence, u as usize, x, y),
                    ),
            decreases 5 - v,
        {
            let ghost before = kernels@;
            let direction = directions[v];
            assert(direction == direction_of(v as int)) by {
                assert(directions@[direction_of(v as int).rank()] == direction_of(v as int));
            }
            write_biased_rw::<A>(&mut kernels[v], self.persistence, direction);
            proof {
                assert forall|u: int| 0 <= u < 5 implies (#[trigger] kernels@[u]).names() == old(
                    kernels,
                )@[u].names() by {
                    if u != v {
                        assert(kernels@[u] == before[u]);
                    }
                    assert(before[u].names() == old(kernels)@[u].names());
                }
                assert forall|u: int| v + 1 <= u < 5 implies is_uniform(
                    (#[trigger] kernels@[u]).grid(),
                    3,
                    0,
                ) by {
                    assert(kernels@[u] == before[u]);
                }
                assert forall|u: int| 0 <= u < v + 1 implies filled(
                    #[trigger] kernels@[u],
                    3,
                    |x: usize, y: usize| correlated_rw_cell::<A>(self.persistence, u as usize, x, y),
                ) by {
                    if u < v {
                        assert(kernels@[u] == before[u]);
                    }
                }
            }
            v += 1;
        }
        Ok(())
    }
}

impl<A: Arithmetic> KernelGenerator<A> for CorrelatedRwGenerator {
    open spec fn quantity(&self) -> usize {
        5
    }

    open spec fn extent(&self) -> usize {
        3
    }

    open spec fn cell(&self, variant: usize, x: usize, y: usize) -> u64 {
        correlated_rw_cell::<A>(self.persistence, variant, x, y)
    }

    open spec fn accepts(&self, given: usize) -> bool {
        given == 5
    }

    open spec fn refusal(&self, given: usize) -> KernelGeneratorError {
        KernelGeneratorError::NotEnoughKernels
    }

    open spec fn label(&self) -> (&'static str, &'static str) {
        ("brw", "Biased RW")
    }

    fn prepare(&self, kernels: &mut Vec<Kernel>) -> (r: Result<(), KernelGeneratorError>) {
        let given = kernels.len();
        assert(given == old(kernels)@.len());
        self.clear(kernels)
    }

    fn generate(&self, kernels: &mut Vec<Kernel>) -> (r: Result<(), KernelGeneratorError>) {
        let given = kernels.len();
        assert(given == old(kernels)@.len());
        self.fill::<A>(kernels)
    }

    fn generates_qty(&self) -> (n: usize) {
        5
    }

    fn name(&self) -> (n: (String, String)) {
        ("brw".to_owned(), "Biased RW".to_owned())
    }
}

/// The kernels of the directions east, south and west are the kernel of the
/// direction north, turned clockwise by one, two and three right angles.
pub proof fn lemma_turned_north<A: Arithmetic>(persistence: u64, north: Seq<Seq<u64>>, turns: nat)
    requires
        is_square(north, 3),
        forall|x: int, y: int|
            0 <= x < 3 && 0 <= y < 3 ==> (#[trigger] north[x][y]) == correlated_rw_cell::<A>(
                persistence,
                0,
                x as usize,
                y as usize,
            ),
        turns < 4,
    ensures
        is_square(turned(north, turns), 3),
        forall|x: int, y: int|
            0 <= x < 3 && 0 <= y < 3 ==> (#[trigger] turned(north, turns)[x][y])
                == correlated_rw_cell::<A>(persistence, turns as usize, x as usize, y as usize),
    decreases turns,
{
    if turns > 0 {
        let before = turned(north, (turns - 1) as nat);
        lemma_turned_north::<A>(persistence, north, (turns - 1) as nat);
        assert(turned(north, turns) == quarter_turn(before));
        assert forall|x: int, y: int| 0 <= x < 3 && 0 <= y < 3 implies (#[trigger] turned(
            north,
            turns,
        )[x][y]) == correlated_rw_cell::<A>(persistence, turns as usize, x as usize, y as usize) by {
            assert(quarter_turn(before)[x][y] == before[y][2 - x]);
            assert(before[y][2 - x] == correlated_rw_cell::<A>(
                persistence,
                (turns - 1) as usize,
                y as usize,
                (2 - x) as usize,
            ));
        }
    }
}

} // verus!
