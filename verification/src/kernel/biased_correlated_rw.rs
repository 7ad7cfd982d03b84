//! The biased and correlated random walk: a pull into one direction together
//! with the persistence of the last step.

use crate::arithmetic::Arithmetic;
use crate::kernel::biased_rw::{biased_rw_cell, write_biased_rw};
use crate::kernel::correlated_rw::{clear_five, correlated_rw_cell, CorrelatedRwGenerator};
use crate::kernel::generator::{
    filled, prepared, same_names, KernelGenerator, KernelGeneratorError,
};
use crate::kernel::{cells_of, summed, Direction, Kernel};
use vstd::prelude::*;

verus! {

/// The weights of kernel number `variant` before they are scaled: those of
/// the correlated walk times those of the biased walk, cell by cell.
pub open spec fn products<A: Arithmetic>(
    probability: u64,
    direction: Direction,
    persistence: u64,
    variant: usize,
) -> Seq<Seq<u64>> {
    Seq::new(
        3,
        |x: int|
            Seq::new(
                3,
                |y: int|
                    A::product(
                        correlated_rw_cell::<A>(persistence, variant, x as usize, y as usize),
                        biased_rw_cell::<A>(probability, direction, x as usize, y as usize),
                    ),
            ),
    )
}

/// The weight in column `x` and row `y` of kernel number `variant` of the
/// biased and correlated random walk: the product of the two walks' weights
/// over the sum of all nine products.
pub open spec fn biased_correlated_rw_cell<A: Arithmetic>(
    probability: u64,
    direction: Direction,
    persistence: u64,
    variant: usize,
    x: usize,
    y: usize,
) -> u64 {
    let unscaled = products::<A>(probability, direction, persistence, variant);
    A::quotient(unscaled[x as int][y as int], summed::<A>(cells_of(unscaled)))
}

/// Generates the five kernels of the biased and correlated random walk.
pub struct BiasedCorrelatedRwGenerator {
    /// The weight of the step in the preferred direction.
    pub probability: u64,
    /// The preferred direction.
    pub direction: Direction,
    /// The weight of the step in the direction of the last step.
    pub persistence: u64,
}

impl BiasedCorrelatedRwGenerator {
    /// Makes each of the five kernels three columns wide and clears it.
    pub fn clear(&self, kernels: &mut Vec<Kernel>) -> (r: Result<(), KernelGeneratorError>)
        ensures
            same_names(final(kernels)@, old(kernels)@),
            old(kernels)@.len() != 5 <==> r == Err::<(), _>(KernelGeneratorError::NotEnoughKernels),
            old(kernels)@.len() == 5 <==> r is Ok,
            r is Ok ==> prepared(final(kernels)@, 5, 3),
            r is Err ==> final(kernels)@ == old(kernels)@,
    {
        clear_five(kernels)
    }

    /// Writes the weights into the five kernels.
    pub fn fill<A: Arithmetic>(&self, kernels: &mut Vec<Kernel>) -> (r: Result<
        (),
        KernelGeneratorError,
    >)
        requires
            old(kernels)@.len() == 5 ==> prepared(old(kernels)@, 5, 3),
        ensures
            same_names(final(kernels)@, old(kernels)@),
            old(kernels)@.len() != 5 <==> r == Err::<(), _>(KernelGeneratorError::NotEnoughKernels),
            old(kernels)@.len() == 5 <==> r is Ok,
            r is Err ==> final(kernels)@ == old(kernels)@,
            r is Ok ==> forall|v: int|
                0 <= v < 5 ==> filled(
                    #[trigger] final(kernels)@[v],
                    3,
                    |x: usize, y: usize|
                        biased_correlated_rw_cell::<A>(
                            self.probability,
                            self.direction,
                            self.persistence,
                            v as usize,
                            x,
                            y,
                        ),
                ),
    {
        if kernels.len() != 5 {
            return Err(KernelGeneratorError::NotEnoughKernels);
        }
        let correlated = CorrelatedRwGenerator { persistence: self.persistence };
        let _ = correlated.fill::<A>(kernels);
        let mut biased = Kernel::unprepared(("brw".to_owned(), "Biased RW".to_owned()));
        let _ = biased.initialize(3);
        write_biased_rw::<A>(&mut biased, self.probability, self.direction);
        let mut v: usize = 0;
        while v < 5
            invariant
                v <= 5,
                kernels@.len() == 5,
                same_names(kernels@, old(kernels)@),
                filled(
                    biased,
                    3,
                    |x: usize, y: usize|
                        biased_rw_cell::<A>(self.probability, self.direction, x, y),
                ),
                forall|u: int|
                    v <= u < 5 ==> filled(
                        #[trigger] kernels@[u],
                        3,
                        |x: usize, y: usize|
                            correlated_rw_cell::<A>(self.persistence, u as usize, x, y),
                    ),
                forall|u: int|
                    0 <= u < v ==> filled(
                        #[trigger] kernels@[u],
                        3,
                        |x: usize, y: usize|
                            biased_correlated_rw_cell::<A>(
                                self.probability,
                                self.direction,
                                self.persistence,
                                u as usize,
                                x,
                                y,
                            ),
                    ),
            decreases 5 - v,
        {
            let ghost before = kernels@;
            let ghost unscaled = products::<A>(
                self.probability,
                self.direction,
                self.persistence,
                v,
            );
            let kernel = &mut kernels[v];
            let ghost k0 = *kernel;
            assert(filled(
                k0,
                3,
                |x: usize, y: usize| correlated_rw_cell::<A>(self.persistence, v, x, y),
            ));
            let _ = kernel.multiply_assign::<A>(&biased);
            proof {
                assert(kernel.grid().len() == 3);
                assert forall|x: int| 0 <= x < 3 implies #[trigger] kernel.grid()[x]
                    == unscaled[x] by {
                    assert(kernel.grid()[x].len() == 3);
                    assert forall|y: int| 0 <= y < 3 implies kernel.grid()[x][y]
                        == unscaled[x][y] by {
                        assert(k0.grid()[x][y] == correlated_rw_cell::<A>(
                            self.persistence,
                            v,
                            x as usize,
                            y as usize,
                        ));
                        assert(biased.grid()[x][y] == biased_rw_cell::<A>(
                            self.probability,
                            self.direction,
                            x as usize,
                            y as usize,
                        ));
                    }
                    assert(kernel.grid()[x] =~= unscaled[x]);
                }
                assert(kernel.grid() =~= unscaled);
            }
            kernel.normalize::<A>();
            proof {
                assert forall|u: int| 0 <= u < 5 implies (#[trigger] kernels@[u]).names() == old(
                    kernels,
                )@[u].names() by {
                    if u != v {
                        assert(kernels@[u] == before[u]);
                    } else {
                        assert(kernels@[u].names() == k0.names());
                        assert(k0 == before[u]);
                    }
                    assert(before[u].names() == old(kernels)@[u].names());
                }
                assert forall|u: int| v + 1 <= u < 5 implies filled(
                    #[trigger] kernels@[u],
                    3,
                    |x: usize, y: usize|
                        correlated_rw_cell::<A>(self.persistence, u as usize, x, y),
                ) by {
                    assert(kernels@[u] == before[u]);
                }
                assert forall|u: int| 0 <= u < v + 1 implies filled(
                    #[trigger] kernels@[u],
                    3,
                    |x: usize, y: usize|
                        biased_correlated_rw_cell::<A>(
                            self.probability,
                            self.direction,
                            self.persistence,
                            u as usize,
                            x,
                            y,
                        ),
                ) by {
                    if u < v {
                        assert(kernels@[u] == before[u]);
                    }
                }
            }
            v += 1;
        }
        Ok(())
    }
}

impl<A: Arithmetic> KernelGenerator<A> for BiasedCorrelatedRwGenerator {
    open spec fn quantity(&self) -> usize {
        5
    }

    open spec fn extent(&self) -> usize {
        3
    }

    open spec fn cell(&self, variant: usize, x: usize, y: usize) -> u64 {
        biased_correlated_rw_cell::<A>(
            self.probability,
            self.direction,
            self.persistence,
            variant,
            x,
            y,
        )
    }

    open spec fn accepts(&self, given: usize) -> bool {
        given == 5
    }

    open spec fn refusal(&self, given: usize) -> KernelGeneratorError {
        KernelGeneratorError::NotEnoughKernels
    }

    open spec fn label(&self) -> (&'static str, &'static str) {
        ("bcrw", "Biased and correlated RW")
    }

    fn prepare(&self, kernels: &mut Vec<Kernel>) -> (r: Result<(), KernelGeneratorError>) {
        let given = kernels.len();
        assert(given == old(kernels)@.len());
        self.clear(kernels)
    }

    fn generate(&self, kernels: &mut Vec<Kernel>) -> (r: Result<(), KernelGeneratorError>) {
        let given = kernels.len();
        assert(given == old(kernels)@.len());
        self.fill::<A>(kernels)
    }

    fn generates_qty(&self) -> (n: usize) {
        5
    }

    fn name(&self) -> (n: (String, String)) {
        ("bcrw".to_owned(), "Biased and correlated RW".to_owned())
    }
}

} // verus!
