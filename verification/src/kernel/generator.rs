//! The interface of kernel generators.
//!
//! A generator works in two phases: `prepare` sizes the kernels it is given,
//! `generate` fills them.  It declares how many kernels it fills, how large
//! they are, what each cell will hold and what it is called, and on which
//! numbers of kernels it works.  Its callers hand it the number that it
//! declares, and learn from its declarations what they get back.

use crate::arithmetic::Arithmetic;
use crate::grid::is_uniform;
use crate::kernel::Kernel;
use vstd::prelude::*;

verus! {

/// What can go wrong when kernels are generated.
#[derive(Debug, Clone, Copy, PartialEq, Eq, Structural)]
pub enum KernelGeneratorError {
    /// The generator fills one kernel and found none.
    OneKernelRequired,
    /// The generator fills several kernels and did not find as many.
    NotEnoughKernels,
    /// A kernel has to have an odd number of columns and rows.
    SizeEven,
}

/// Whether the first `quantity` of `kernels` are zeroed squares of `extent`
/// columns.
pub open spec fn prepared(kernels: Seq<Kernel>, quantity: usize, extent: usize) -> bool {
    &&& kernels.len() >= quantity
    &&& forall|v: int|
        0 <= v < quantity ==> is_uniform((#[trigger] kernels[v]).grid(), extent as nat, 0)
}

/// Whether `kernel` is a square of `extent` columns whose cell in column `x`
/// and row `y` is `cells(x, y)`.
pub open spec fn filled(kernel: Kernel, extent: usize, cells: spec_fn(usize, usize) -> u64) -> bool {
    &&& kernel.wf()
    &&& kernel.side() == extent
    &&& forall|x: int, y: int|
        0 <= x < extent && 0 <= y < extent ==> (#[trigger] kernel.grid()[x][y]) == cells(
            x as usize,
            y as usize,
        )
}

/// Whether `now` holds as many kernels as `before`, each under the name that
/// it had.
pub open spec fn same_names(now: Seq<Kernel>, before: Seq<Kernel>) -> bool {
    &&& now.len() == before.len()
    &&& forall|v: int| 0 <= v < now.len() ==> (#[trigger] now[v]).names() == before[v].names()
}

/// A model of one step, written down as one or several kernels.
///
/// A generator says how many kernels it has to be handed, and looks at their
/// number alone when it decides whether to work on them.
pub trait KernelGenerator<A: Arithmetic>: Sized {
    /// How many kernels the generator fills.
    spec fn quantity(&self) -> usize;

    /// The number of columns, and of rows, of each of its kernels.
    spec fn extent(&self) -> usize;

    /// The weight in column `x` and row `y` of its kernel number `variant`.
    spec fn cell(&self, variant: usize, x: usize, y: usize) -> u64;

    /// Whether the generator works on `given` kernels.
    spec fn accepts(&self, given: usize) -> bool;

    /// The error with which the generator refuses `given` kernels.
    spec fn refusal(&self, given: usize) -> KernelGeneratorError;

    /// The short and the long name of the model.
    spec fn label(&self) -> (&'static str, &'static str);

    /// Sizes the kernels and clears them, or refuses their number and leaves
    /// them as they are.
    fn prepare(&self, kernels: &mut Vec<Kernel>) -> (r: Result<(), KernelGeneratorError>)
        ensures
            same_names(final(kernels)@, old(kernels)@),
            self.accepts(old(kernels)@.len() as usize) ==> r is Ok && prepared(
                final(kernels)@,
                self.quantity(),
                self.extent(),
            ),
            !self.accepts(old(kernels)@.len() as usize) ==> r == Err::<(), _>(
                self.refusal(old(kernels)@.len() as usize),
            ) && final(kernels)@ == old(kernels)@,
    ;

    /// Fills the kernels, which `prepare` has to have sized, or refuses their
    /// number and leaves them as they are.
    fn generate(&self, kernels: &mut Vec<Kernel>) -> (r: Result<(), KernelGeneratorError>)
        requires
            self.accepts(old(kernels)@.len() as usize) ==> prepared(
                old(kernels)@,
                self.quantity(),
                self.extent(),
            ),
        ensures
            same_names(final(kernels)@, old(kernels)@),
            self.accepts(old(kernels)@.len() as usize) ==> r is Ok && forall|v: int|
                0 <= v < self.quantity() ==> filled(
                    #[trigger] final(kernels)@[v],
                    self.extent(),
                    |x: usize, y: usize| self.cell(v as usize, x, y),
                ),
            !self.accepts(old(kernels)@.len() as usize) ==> r == Err::<(), _>(
                self.refusal(old(kernels)@.len() as usize),
            ) && final(kernels)@ == old(kernels)@,
    ;

    /// How many kernels the generator fills.
    fn generates_qty(&self) -> (n: usize)
        ensures
            n == self.quantity(),
    ;

    /// The short and the long name of the model.
    fn name(&self) -> (n: (String, String))
        ensures
            n.0@ == self.label().0@,
            n.1@ == self.label().1@,
    ;
}

} // verus!
