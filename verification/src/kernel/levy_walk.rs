//! The Lévy walk: short steps, and now and then a jump of ten cells.

use crate::arithmetic::Arithmetic;
use crate::grid::is_uniform;
use crate::kernel::generator::{filled, same_names, KernelGenerator, KernelGeneratorError};
use crate::kernel::Kernel;
use vstd::prelude::*;

verus! {

/// The weight in column `x` and row `y` of the kernel of the Lévy walk: one
/// fifth on the centre and on each of its four neighbours, one twentieth ten
/// cells away along each axis.
pub open spec fn levy_walk_cell<A: Arithmetic>(x: usize, y: usize) -> u64 {
    let dx = x - 10;
    let dy = y - 10;
    if (dx == 0 && -1 <= dy <= 1) || (dy == 0 && -1 <= dx <= 1) {
        A::fraction(1, 5)
    } else if (dx == 0 && (dy == 10 || dy == -10)) || (dy == 0 && (dx == 10 || dx == -10)) {
        A::fraction(1, 20)
    } else {
        0
    }
}

/// Generates the kernel of the Lévy walk.
pub struct LevyWalkGenerator {}

impl LevyWalkGenerator {
    /// Makes the first kernel twenty-one columns wide and clears it.
    pub fn clear(&self, kernels: &mut Vec<Kernel>) -> (r: Result<(), KernelGeneratorError>)
        ensures
            same_names(final(kernels)@, old(kernels)@),
            old(kernels)@.len() == 0 <==> r == Err::<(), _>(KernelGeneratorError::OneKernelRequired),
            old(kernels)@.len() > 0 <==> r is Ok,
            r is Ok ==> is_uniform(final(kernels)@[0].grid(), 21, 0),
            r is Ok ==> final(kernels)@[0].names() == old(kernels)@[0].names(),
            forall|v: int| 1 <= v < old(kernels)@.len() ==> final(kernels)@[v] == old(kernels)@[v],
            r is Err ==> final(kernels)@ == old(kernels)@,
    {
        if kernels.len() == 0 {
            return Err(KernelGeneratorError::OneKernelRequired);
        }
        let _ = kernels[0].initialize(21);
        Ok(())
    }

    /// Writes the nine weights into the first kernel.
    pub fn fill<A: Arithmetic>(&self, kernels: &mut Vec<Kernel>) -> (r: Result<
        (),
        KernelGeneratorError,
    >)
        requires
            old(kernels)@.len() > 0 ==> is_uniform(old(kernels)@[0].grid(), 21, 0),
        ensures
            old(kernels)@.len() == 0 <==> r == Err::<(), _>(KernelGeneratorError::OneKernelRequired),
            old(kernels)@.len() > 0 <==> r is Ok,
            r is Err ==> final(kernels)@ == old(kernels)@,
            same_names(final(kernels)@, old(kernels)@),
            r is Ok ==> filled(final(kernels)@[0], 21, |x: usize, y: usize| levy_walk_cell::<A>(x, y)),
            forall|v: int| 1 <= v < old(kernels)@.len() ==> final(kernels)@[v] == old(kernels)@[v],
    {
        if kernels.len() == 0 {
            return Err(KernelGeneratorError::OneKernelRequired);
        }
        let far = A::ratio(1, 20);
        let near = A::ratio(1, 5);
        let kernel = &mut kernels[0];
        let ghost k0 = *kernel;
        kernel.set(-10, 0, far);
        let ghost k1 = *kernel;
        kernel.set(10, 0, far);
        let ghost k2 = *kernel;
        kernel.set(0, -10, far);
        let ghost k3 = *kernel;
        kernel.set(0, 10, far);
        let ghost k4 = *kernel;
        kernel.set(0, 0, near);
        let ghost k5 = *kernel;
        kernel.set(-1, 0, near);
        let ghost k6 = *kernel;
        kernel.set(1, 0, near);
        let ghost k7 = *kernel;
        kernel.set(0, -1, near);
        let ghost k8 = *kernel;
        kernel.set(0, 1, near);
        let ghost k9 = *kernel;
        proof {
            assert forall|x: int, y: int| 0 <= x < 21 && 0 <= y < 21 implies (
            #[trigger] k9.grid()[x][y]) == levy_walk_cell::<A>(x as usize, y as usize) by {
                let dx = x - 10;
                let dy = y - 10;
                let at = (dx, dy);
                assert(k0.weight(dx, dy) == 0);
                assert(k1.weight(dx, dy) == if at == (-10int, 0int) { far } else { k0.weight(dx, dy) });
                assert(k2.weight(dx, dy) == if at == (10int, 0int) { far } else { k1.weight(dx, dy) });
                assert(k3.weight(dx, dy) == if at == (0int, -10int) { far } else { k2.weight(dx, dy) });
                assert(k4.weight(dx, dy) == if at == (0int, 10int) { far } else { k3.weight(dx, dy) });
                assert(k5.weight(dx, dy) == if at == (0int, 0int) { near } else { k4.weight(dx, dy) });
                assert(k6.weight(dx, dy) == if at == (-1int, 0int) { near } else { k5.weight(dx, dy) });
                assert(k7.weight(dx, dy) == if at == (1int, 0int) { near } else { k6.weight(dx, dy) });
                assert(k8.weight(dx, dy) == if at == (0int, -1int) { near } else { k7.weight(dx, dy) });
                assert(k9.weight(dx, dy) == if at == (0int, 1int) { near } else { k8.weight(dx, dy) });
            }
        }
        Ok(())
    }
}

impl<A: Arithmetic> KernelGenerator<A> for LevyWalkGenerator {
    open spec fn quantity(&self) -> usize {
        1
    }

    open spec fn extent(&self) -> usize {
        21
    }

    open spec fn cell(&self, variant: usize, x: usize, y: usize) -> u64 {
        levy_walk_cell::<A>(x, y)
    }

    open spec fn accepts(&self, given: usize) -> bool {
        given > 0
    }

    open spec fn refusal(&self, given: usize) -> KernelGeneratorError {
        KernelGeneratorError::OneKernelRequired
    }

    open spec fn label(&self) -> (&'static str, &'static str) {
        ("lw", "Lévy Walk")
    }

    fn prepare(&self, kernels: &mut Vec<Kernel>) -> (r: Result<(), KernelGeneratorError>) {
        let given = kernels.len();
        assert(given == old(kernels)@.len());
        self.clear(kernels)
    }

    fn generate(&self, kernels: &mut Vec<Kernel>) -> (r: Result<(), KernelGeneratorError>) {
        let given = kernels.len();
        assert(given == old(kernels)@.len());
        self.fill::<A>(kernels)
    }

    fn generates_qty(&self) -> (n: usize) {
        1
    }

    fn name(&self) -> (n: (String, String)) {
        ("lw".to_owned(), "Lévy Walk".to_owned())
    }
}

} // verus!
