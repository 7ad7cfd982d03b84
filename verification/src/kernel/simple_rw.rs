//! The simple random walk: stay, or move to one of the four neighbours, each
//! with the same weight.

use crate::arithmetic::Arithmetic;
use crate::grid::is_uniform;
use crate::kernel::generator::{filled, same_names, KernelGenerator, KernelGeneratorError};
use crate::kernel::Kernel;
use vstd::prelude::*;

verus! {

/// Whether column `x`, row `y` of a kernel of three columns is the centre or
/// one of its four neighbours.
pub open spec fn on_cross(x: usize, y: usize) -> bool {
    ||| (x == 1 && y <= 2)
    ||| (y == 1 && x <= 2)
}

/// The kernel of the simple random walk: one fifth on the centre and on each
/// of its four neighbours.
pub open spec fn simple_rw_cell<A: Arithmetic>(x: usize, y: usize) -> u64 {
    if on_cross(x, y) {
        A::fraction(1, 5)
    } else {
        0
    }
}

/// Generates the kernel of the simple random walk.
pub struct SimpleRwGenerator;

impl SimpleRwGenerator {
    /// Makes the first kernel three columns wide and clears it.
    pub fn clear(&self, kernels: &mut Vec<Kernel>) -> (r: Result<(), KernelGeneratorError>)
        ensures
            same_names(final(kernels)@, old(kernels)@),
            old(kernels)@.len() == 0 <==> r == Err::<(), _>(KernelGeneratorError::OneKernelRequired),
            old(kernels)@.len() > 0 <==> r is Ok,
            r is Ok ==> is_uniform(final(kernels)@[0].grid(), 3, 0),
            r is Ok ==> final(kernels)@[0].names() == old(kernels)@[0].names(),
            forall|v: int| 1 <= v < old(kernels)@.len() ==> final(kernels)@[v] == old(kernels)@[v],
            r is Err ==> final(kernels)@ == old(kernels)@,
    {
        if kernels.len() == 0 {
            return Err(KernelGeneratorError::OneKernelRequired);
        }
        let _ = kernels[0].initialize(3);
        Ok(())
    }

    /// Writes the five weights into the first kernel.
    pub fn fill<A: Arithmetic>(&self, kernels: &mut Vec<Kernel>) -> (r: Result<
        (),
        KernelGeneratorError,
    >)
        requires
            old(kernels)@.len() > 0 ==> is_uniform(old(kernels)@[0].grid(), 3, 0),
        ensures
            old(kernels)@.len() == 0 <==> r == Err::<(), _>(KernelGeneratorError::OneKernelRequired),
            old(kernels)@.len() > 0 <==> r is Ok,
            r is Err ==> final(kernels)@ == old(kernels)@,
            same_names(final(kernels)@, old(kernels)@),
            r is Ok ==> filled(final(kernels)@[0], 3, |x: usize, y: usize| simple_rw_cell::<A>(x, y)),
            forall|v: int| 1 <= v < old(kernels)@.len() ==> final(kernels)@[v] == old(kernels)@[v],
    {
        if kernels.len() == 0 {
            return Err(KernelGeneratorError::OneKernelRequired);
        }
        let fifth = A::ratio(1, 5);
        let kernel = &mut kernels[0];
        let ghost k0 = *kernel;
        kernel.set(0, 0, fifth);
        let ghost k1 = *kernel;
        kernel.set(0, -1, fifth);
        let ghost k2 = *kernel;
        kernel.set(1, 0, fifth);
        let ghost k3 = *kernel;
        kernel.set(0, 1, fifth);
        let ghost k4 = *kernel;
        kernel.set(-1, 0, fifth);
        let ghost k5 = *kernel;
        proof {
            assert forall|x: int, y: int| 0 <= x < 3 && 0 <= y < 3 implies (
            #[trigger] k5.grid()[x][y]) == simple_rw_cell::<A>(x as usize, y as usize) by {
                let dx = x - 1;
                let dy = y - 1;
                assert(k0.weight(dx, dy) == 0);
                assert(k1.weight(dx, dy) == if (dx, dy) == (0int, 0int) {
                    fifth
                } else {
                    k0.weight(dx, dy)
                });
                assert(k2.weight(dx, dy) == if (dx, dy) == (0int, -1int) {
                    fifth
                } else {
                    k1.weight(dx, dy)
                });
                assert(k3.weight(dx, dy) == if (dx, dy) == (1int, 0int) {
                    fifth
                } else {
                    k2.weight(dx, dy)
                });
                assert(k4.weight(dx, dy) == if (dx, dy) == (0int, 1int) {
                    fifth
                } else {
                    k3.weight(dx, dy)
                });
                assert(k5.weight(dx, dy) == if (dx, dy) == (-1int, 0int) {
                    fifth
                } else {
                    k4.weight(dx, dy)
                });
            }
        }
        Ok(())
    }
}

impl<A: Arithmetic> KernelGenerator<A> for SimpleRwGenerator {
    open spec fn quantity(&self) -> usize {
        1
    }

    open spec fn extent(&self) -> usize {
        3
    }

    open spec fn cell(&self, variant: usize, x: usize, y: usize) -> u64 {
        simple_rw_cell::<A>(x, y)
    }

    open spec fn accepts(&self, given: usize) -> bool {
        given > 0
    }

    open spec fn refusal(&self, given: usize) -> KernelGeneratorError {
        KernelGeneratorError::OneKernelRequired
    }

    open spec fn label(&self) -> (&'static str, &'static str) {
        ("srw", "Simple RW")
    }

    fn prepare(&self, kernels: &mut Vec<Kernel>) -> (r: Result<(), KernelGeneratorError>) {
        let given = kernels.len();
        assert(given == old(kernels)@.len());
        self.clear(kernels)
    }

    fn generate(&self, kernels: &mut Vec<Kernel>) -> (r: Result<(), KernelGeneratorError>) {
        let given = kernels.len();
        assert(given == old(kernels)@.len());
        self.fill::<A>(kernels)
    }

    fn generates_qty(&self) -> (n: usize) {
        1
    }

    fn name(&self) -> (n: (String, String)) {
        ("srw".to_owned(), "Simple RW".to_owned())
    }
}

} // verus!
