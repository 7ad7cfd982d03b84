//! The biased random walk: one direction is more likely than the others.

use crate::arithmetic::Arithmetic;
use crate::grid::is_uniform;
use crate::kernel::generator::{filled, same_names, KernelGenerator, KernelGeneratorError};
use crate::kernel::simple_rw::on_cross;
use crate::kernel::{Direction, Kernel};
use vstd::prelude::*;

verus! {

/// The weight of each direction but the preferred one: what `probability`
/// leaves of one, in four equal parts.
pub open spec fn other_weight<A: Arithmetic>(probability: u64) -> u64 {
    A::quotient(A::difference(A::fraction(1, 1), probability), A::fraction(4, 1))
}

/// The weight in column `x` and row `y` of the kernel of the biased random
/// walk: `probability` for the step in `direction`, and for each of the four
/// other steps a quarter of the rest.
pub open spec fn biased_rw_cell<A: Arithmetic>(
    probability: u64,
    direction: Direction,
    x: usize,
    y: usize,
) -> u64 {
    if x == 1 + direction.delta().0 && y == 1 + direction.delta().1 {
        probability
    } else if on_cross(x, y) {
        other_weight::<A>(probability)
    } else {
        0
    }
}

/// Writes the weights of the biased random walk into a cleared kernel of
/// three columns.
pub fn write_biased_rw<A: Arithmetic>(kernel: &mut Kernel, probability: u64, direction: Direction)
    requires
        is_uniform(old(kernel).grid(), 3, 0),
    ensures
        filled(
            *final(kernel),
            3,
            |x: usize, y: usize| biased_rw_cell::<A>(probability, direction, x, y),
        ),
        final(kernel).names() == old(kernel).names(),
{
    let other = A::over(A::minus(A::ratio(1, 1), probability), A::ratio(4, 1));
    let (tx, ty) = direction.offset();
    let ghost k0 = *kernel;
    kernel.set(0, 0, other);
    let ghost k1 = *kernel;
    kernel.set(0, -1, other);
    let ghost k2 = *kernel;
    kernel.set(1, 0, other);
    let ghost k3 = *kernel;
    kernel.set(0, 1, other);
    let ghost k4 = *kernel;
    kernel.set(-1, 0, other);
    let ghost k5 = *kernel;
    kernel.set(tx, ty, probability);
    let ghost k6 = *kernel;
    proof {
        assert forall|x: int, y: int| 0 <= x < 3 && 0 <= y < 3 implies (#[trigger] k6.grid()[x][y])
            == biased_rw_cell::<A>(probability, direction, x as usize, y as usize) by {
            let dx = x - 1;
            let dy = y - 1;
            let at = (dx, dy);
            assert(k0.weight(dx, dy) == 0);
            assert(k1.weight(dx, dy) == if at == (0int, 0int) { other } else { k0.weight(dx, dy) });
            assert(k2.weight(dx, dy) == if at == (0int, -1int) { other } else { k1.weight(dx, dy) });
            assert(k3.weight(dx, dy) == if at == (1int, 0int) { other } else { k2.weight(dx, dy) });
            assert(k4.weight(dx, dy) == if at == (0int, 1int) { other } else { k3.weight(dx, dy) });
            assert(k5.weight(dx, dy) == if at == (-1int, 0int) { other } else { k4.weight(dx, dy) });
            assert(k6.weight(dx, dy) == if at == (tx as int, ty as int) {
                probability
            } else {
                k5.weight(dx, dy)
            });
        }
    }
}

/// Generates the kernel of the biased random walk.
pub struct BiasedRwGenerator {
    /// The weight of the step in the preferred direction.
    pub probability: u64,
    /// The preferred direction.
    pub direction: Direction,
}

impl BiasedRwGenerator {
    /// Makes the first kernel three columns wide and clears it.
    pub fn clear(&self, kernels: &mut Vec<Kernel>) -> (r: Result<(), KernelGeneratorError>)
        ensures
            same_names(final(kernels)@, old(kernels)@),
            old(kernels)@.len() == 0 <==> r == Err::<(), _>(KernelGeneratorError::OneKernelRequired),
            old(kernels)@.len() > 0 <==> r is Ok,
            r is Ok ==> is_uniform(final(kernels)@[0].grid(), 3, 0),
            r is Ok ==> final(kernels)@[0].names() == old(kernels)@[0].names(),
            forall|v: int| 1 <= v < old(kernels)@.len() ==> final(kernels)@[v] == old(kernels)@[v],
            r is Err ==> final(kernels)@ == old(kernels)@,
    {
        if kernels.len() == 0 {
            return Err(KernelGeneratorError::OneKernelRequired);
        }
        let _ = kernels[0].initialize(3);
        Ok(())
    }

    /// Writes the five weights into the first kernel.
    pub fn fill<A: Arithmetic>(&self, kernels: &mut Vec<Kernel>) -> (r: Result<
        (),
        KernelGeneratorError,
    >)
        requires
            old(kernels)@.len() > 0 ==> is_uniform(old(kernels)@[0].grid(), 3, 0),
        ensures
            old(kernels)@.len() == 0 <==> r == Err::<(), _>(KernelGeneratorError::OneKernelRequired),
            old(kernels)@.len() > 0 <==> r is Ok,
            r is Err ==> final(kernels)@ == old(kernels)@,
            same_names(final(kernels)@, old(kernels)@),
            r is Ok ==> filled(
                final(kernels)@[0],
                3,
                |x: usize, y: usize| biased_rw_cell::<A>(self.probability, self.direction, x, y),
            ),
            forall|v: int| 1 <= v < old(kernels)@.len() ==> final(kernels)@[v] == old(kernels)@[v],
    {
        if kernels.len() == 0 {
            return Err(KernelGeneratorError::OneKernelRequired);
        }
        write_biased_rw::<A>(&mut kernels[0], self.probability, self.direction);
        Ok(())
    }
}

impl<A: Arithmetic> KernelGenerator<A> for BiasedRwGenerator {
    open spec fn quantity(&self) -> usize {
        1
    }

    open spec fn extent(&self) -> usize {
        3
    }

    open spec fn cell(&self, variant: usize, x: usize, y: usize) -> u64 {
        biased_rw_cell::<A>(self.probability, self.direction, x, y)
    }

    open spec fn accepts(&self, given: usize) -> bool {
        given > 0
    }

    open spec fn refusal(&self, given: usize) -> KernelGeneratorError {
        KernelGeneratorError::OneKernelRequired
    }

    open spec fn label(&self) -> (&'static str, &'static str) {
        ("brw", "Biased RW")
    }

    fn prepare(&self, kernels: &mut Vec<Kernel>) -> (r: Result<(), KernelGeneratorError>) {
        let given = kernels.len();
        assert(given == old(kernels)@.len());
        self.clear(kernels)
    }

    fn generate(&self, kernels: &mut Vec<Kernel>) -> (r: Result<(), KernelGeneratorError>) {
        let given = kernels.len();
        assert(given == old(kernels)@.len());
        self.fill::<A>(kernels)
    }

    fn generates_qty(&self) -> (n: usize) {
        1
    }

    fn name(&self) -> (n: (String, String)) {
        ("brw".to_owned(), "Biased RW".to_owned())
    }
}

} // verus!
