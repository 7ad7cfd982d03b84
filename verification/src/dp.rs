//! Dynamic programs: the probability of being at each cell at each time.
//!
//! A program is built by [`builder::DynamicProgramBuilder`], filled by
//! `compute` and read afterwards.  There are two kinds: [`simple`] with one
//! table and [`multi`] with one table for each of several kernels.  A
//! [`DynamicProgramPool`] holds a program of either kind.

use crate::arithmetic::Arithmetic;
use crate::dp::multi::MultiDynamicProgram;
use crate::dp::simple::DynamicProgram;
use crate::dp::store::{StoreError, COMPRESSION_LEVEL};
use crate::dp::zstd_frame::{zstd_decoded, zstd_encoded};
use crate::dp::recurrence::follows;
use crate::dp::simple::is_seed;
use crate::grid::{layers_of, rows};
use crate::kernel::Kernel;
use vstd::prelude::*;

pub mod bounds;
pub mod builder;
pub mod image;
pub mod multi;
pub mod recurrence;
pub mod simple;
pub mod store;
pub mod tiles;
pub mod zstd_frame;

verus! {

/// What can go wrong when a pool of dynamic programs is used as one program.
#[derive(Debug, Clone, Copy, PartialEq, Eq, Structural)]
pub enum DynamicProgramError {
    /// The pool holds a program with several tables where one table is asked for.
    UnwrapOnMultiple,
}

/// The kinds of dynamic program.
#[derive(Default, Debug, Clone, Copy, PartialEq, Eq, Structural)]
pub enum DynamicProgramType {
    /// One table, computed with one kernel.
    #[default]
    Simple,
    /// One table for each of several kernels.
    Multi,
}

/// Whether `layers` holds what the recurrence gives in the arithmetic `A`
/// with `kernel` and `mask` up to the time `limit`: the seed at time zero and,
/// at each later time, the step from the time before.
pub open spec fn unfolds<A: Arithmetic>(
    layers: Seq<Seq<Seq<u64>>>,
    kernel: Seq<Seq<u64>>,
    mask: Seq<Seq<u64>>,
    limit: int,
) -> bool {
    &&& layers.len() == limit + 1
    &&& is_seed::<A>(layers[0], limit)
    &&& forall|t: int|
        1 <= t <= limit ==> follows::<A>(#[trigger] layers[t], layers[t - 1], kernel, mask, limit)
}

/// What every dynamic program offers.
pub trait DynamicPrograms {
    /// Whether table and mask have the shape that the time limit asks for.
    spec fn shaped(&self) -> bool;

    /// Whether the kernels can be applied.
    spec fn applicable(&self) -> bool;

    /// The greatest coordinate of the grid, which is the last time step.
    spec fn greatest(&self) -> int;

    /// The field probabilities by column and row.
    spec fn shares(&self) -> Seq<Seq<u64>>;

    /// The least and the greatest coordinate of the grid.
    fn limits(&self) -> (l: (isize, isize))
        requires
            self.shaped(),
        ensures
            l.0 == -self.greatest(),
            l.1 == self.greatest(),
    ;

    /// The kernels, one for each table.
    spec fn steps(&self) -> Seq<Kernel>;

    /// The table of kernel `v`, layer by layer in the order of time.
    spec fn history(&self, v: int) -> Seq<Seq<Seq<u64>>>;

    /// Fills the tables from scratch: each then holds what the recurrence
    /// gives with its kernel.  Time limit, kernels and field probabilities
    /// stay as they are.
    fn compute<A: Arithmetic>(&mut self)
        requires
            old(self).shaped(),
            old(self).applicable(),
        ensures
            forall|v: int|
                0 <= v < final(self).steps().len() ==> unfolds::<A>(
                    #[trigger] final(self).history(v),
                    final(self).steps()[v].grid(),
                    final(self).shares(),
                    final(self).greatest(),
                ),
            final(self).shaped(),
            final(self).applicable(),
            final(self).greatest() == old(self).greatest(),
            final(self).steps() == old(self).steps(),
            final(self).shares() == old(self).shares(),
    ;

    /// The field probabilities by column and row.
    fn field_probabilities(&self) -> (f: Vec<Vec<u64>>)
        ensures
            rows(f) == self.shares(),
    ;

    /// The bytes that stand for the program, before they are compressed.
    spec fn picture(&self) -> Seq<u8>;

    /// The program as one compressed frame: what the compressor makes of its
    /// picture at `COMPRESSION_LEVEL`.  It fails where the compressor does,
    /// and only there; a frame that is returned decompresses to the picture.
    fn save(&self) -> (r: Result<Vec<u8>, StoreError>)
        ensures
            match zstd_encoded(self.picture(), COMPRESSION_LEVEL) {
                Some(encoded) => r matches Ok(frame) && frame@ == encoded,
                None => r == Err::<Vec<u8>, _>(StoreError::Compression),
            },
            r matches Ok(frame) ==> zstd_decoded(frame@) == Some(self.picture()),
    ;
}

impl DynamicPrograms for DynamicProgram {
    open spec fn shaped(&self) -> bool {
        self.wf()
    }

    open spec fn applicable(&self) -> bool {
        self.kernel_fits()
    }

    open spec fn greatest(&self) -> int {
        self.limit()
    }

    open spec fn shares(&self) -> Seq<Seq<u64>> {
        self.mask()
    }

    fn limits(&self) -> (l: (isize, isize)) {
        DynamicProgram::limits(self)
    }

    open spec fn steps(&self) -> Seq<Kernel> {
        seq![self.kernel]
    }

    open spec fn history(&self, v: int) -> Seq<Seq<Seq<u64>>> {
        layers_of(self.table)
    }

    fn compute<A: Arithmetic>(&mut self)
        ensures
            final(self).computed::<A>(),
    {
        DynamicProgram::compute::<A>(self);
        proof {
            self.lemma_computed_unfolds::<A>();
        }
    }

    fn field_probabilities(&self) -> (f: Vec<Vec<u64>>) {
        DynamicProgram::field_probabilities(self)
    }

    open spec fn picture(&self) -> Seq<u8> {
        self.image()
    }

    fn save(&self) -> (r: Result<Vec<u8>, StoreError>) {
        DynamicProgram::save(self)
    }
}

impl DynamicPrograms for MultiDynamicProgram {
    open spec fn shaped(&self) -> bool {
        self.wf()
    }

    open spec fn applicable(&self) -> bool {
        self.kernels_fit()
    }

    open spec fn greatest(&self) -> int {
        self.limit()
    }

    open spec fn shares(&self) -> Seq<Seq<u64>> {
        self.mask()
    }

    fn limits(&self) -> (l: (isize, isize)) {
        MultiDynamicProgram::limits(self)
    }

    open spec fn steps(&self) -> Seq<Kernel> {
        self.kernels@
    }

    open spec fn history(&self, v: int) -> Seq<Seq<Seq<u64>>> {
        Seq::new(self.table@.len(), |t: int| rows(self.table@[t]@[v]))
    }

    fn compute<A: Arithmetic>(&mut self)
        ensures
            final(self).computed::<A>(),
    {
        MultiDynamicProgram::compute::<A>(self);
        proof {
            self.lemma_computed_unfolds::<A>();
        }
    }

    fn field_probabilities(&self) -> (f: Vec<Vec<u64>>) {
        MultiDynamicProgram::field_probabilities(self)
    }

    open spec fn picture(&self) -> Seq<u8> {
        self.image()
    }

    fn save(&self) -> (r: Result<Vec<u8>, StoreError>) {
        MultiDynamicProgram::save(self)
    }
}

impl DynamicProgram {
    /// The table of a computed program unfolds from the seed with the
    /// kernel of the program.
    pub proof fn lemma_computed_unfolds<A: Arithmetic>(&self)
        requires
            self.computed::<A>(),
        ensures
            unfolds::<A>(layers_of(self.table), self.kernel.grid(), self.mask(), self.limit()),
    {
        let layers = layers_of(self.table);
        assert(layers[0] == self.layer(0));
        assert forall|t: int| 1 <= t <= self.limit() implies follows::<A>(
            #[trigger] layers[t],
            layers[t - 1],
            self.kernel.grid(),
            self.mask(),
            self.limit(),
        ) by {
            assert(layers[t] == self.layer(t));
            assert(layers[t - 1] == self.layer(t - 1));
        }
    }
}

impl MultiDynamicProgram {
    /// Each table of a computed program unfolds from the seed with its
    /// kernel.
    pub proof fn lemma_computed_unfolds<A: Arithmetic>(&self)
        requires
            self.computed::<A>(),
        ensures
            forall|v: int|
                0 <= v < self.kernels@.len() ==> unfolds::<A>(
                    #[trigger] self.history(v),
                    self.kernels@[v].grid(),
                    self.mask(),
                    self.limit(),
                ),
    {
        assert forall|v: int| 0 <= v < self.kernels@.len() implies unfolds::<A>(
            #[trigger] self.history(v),
            self.kernels@[v].grid(),
            self.mask(),
            self.limit(),
        ) by {
            let layers = self.history(v);
            assert(layers[0] == self.layer(0, v));
            assert forall|t: int| 1 <= t <= self.limit() implies follows::<A>(
                #[trigger] layers[t],
                layers[t - 1],
                self.kernels@[v].grid(),
                self.mask(),
                self.limit(),
            ) by {
                assert(layers[t] == self.layer(t, v));
                assert(layers[t - 1] == self.layer(t - 1, v));
            }
        }
    }
}

/// A dynamic program of either kind.
#[derive(Debug, Clone, PartialEq, Eq)]
pub enum DynamicProgramPool {
    /// A program with one table.
    Single(DynamicProgram),
    /// A program with one table for each of several kernels.
    Multiple(MultiDynamicProgram),
}

impl DynamicProgramPool {
    /// The kind of the program.
    pub fn kind(&self) -> (k: DynamicProgramType)
        ensures
            k == (match self {
                DynamicProgramPool::Single(_) => DynamicProgramType::Simple,
                DynamicProgramPool::Multiple(_) => DynamicProgramType::Multi,
            }),
    {
        match self {
            DynamicProgramPool::Single(_) => DynamicProgramType::Simple,
            DynamicProgramPool::Multiple(_) => DynamicProgramType::Multi,
        }
    }

    /// The program, if it has one table.
    pub fn try_unwrap(&self) -> (r: Result<&DynamicProgram, DynamicProgramError>)
        ensures
            match self {
                DynamicProgramPool::Single(single) => r == Ok::<_, DynamicProgramError>(single),
                DynamicProgramPool::Multiple(_) => r == Err::<&DynamicProgram, _>(
                    DynamicProgramError::UnwrapOnMultiple,
                ),
            },
    {
        match self {
            DynamicProgramPool::Single(single) => Ok(single),
            DynamicProgramPool::Multiple(_) => Err(DynamicProgramError::UnwrapOnMultiple),
        }
    }

    /// Whether table and mask have the shape that the time limit asks for.
    pub open spec fn wf(&self) -> bool {
        match self {
            DynamicProgramPool::Single(single) => single.wf(),
            DynamicProgramPool::Multiple(multiple) => multiple.wf(),
        }
    }

    /// Whether table and mask have the shape that the time limit asks for.
    pub fn is_wf(&self) -> (r: bool)
        ensures
            r == self.wf(),
    {
        match self {
            DynamicProgramPool::Single(single) => single.is_wf(),
            DynamicProgramPool::Multiple(multiple) => multiple.is_wf(),
        }
    }

    /// Whether the kernels can be applied.
    pub fn is_applicable(&self) -> (r: bool)
        ensures
            r == self.applicable(),
    {
        match self {
            DynamicProgramPool::Single(single) => single.kernel_is_fit(),
            DynamicProgramPool::Multiple(multiple) => multiple.kernels_are_fit(),
        }
    }

    /// The last time step, which is the greatest coordinate of the grid.
    pub fn time_limit(&self) -> (t: usize)
        ensures
            t == self.limit(),
    {
        match self {
            DynamicProgramPool::Single(single) => single.time_limit,
            DynamicProgramPool::Multiple(multiple) => multiple.time_limit,
        }
    }

    /// The greatest coordinate of the grid, which is the last time step.
    pub open spec fn limit(&self) -> int {
        match self {
            DynamicProgramPool::Single(single) => single.limit(),
            DynamicProgramPool::Multiple(multiple) => multiple.limit(),
        }
    }

    /// Whether the program has filled its tables by the recurrence.
    pub open spec fn computed<A: Arithmetic>(&self) -> bool {
        match self {
            DynamicProgramPool::Single(single) => single.computed::<A>(),
            DynamicProgramPool::Multiple(multiple) => multiple.computed::<A>(),
        }
    }
}

impl DynamicPrograms for DynamicProgramPool {
    open spec fn shaped(&self) -> bool {
        self.wf()
    }

    open spec fn applicable(&self) -> bool {
        match self {
            DynamicProgramPool::Single(single) => single.kernel_fits(),
            DynamicProgramPool::Multiple(multiple) => multiple.kernels_fit(),
        }
    }

    open spec fn greatest(&self) -> int {
        self.limit()
    }

    open spec fn shares(&self) -> Seq<Seq<u64>> {
        match self {
            DynamicProgramPool::Single(single) => single.mask(),
            DynamicProgramPool::Multiple(multiple) => multiple.mask(),
        }
    }

    fn limits(&self) -> (l: (isize, isize)) {
        match self {
            DynamicProgramPool::Single(single) => single.limits(),
            DynamicProgramPool::Multiple(multiple) => multiple.limits(),
        }
    }

    open spec fn steps(&self) -> Seq<Kernel> {
        match self {
            DynamicProgramPool::Single(single) => seq![single.kernel],
            DynamicProgramPool::Multiple(multiple) => multiple.kernels@,
        }
    }

    open spec fn history(&self, v: int) -> Seq<Seq<Seq<u64>>> {
        match self {
            DynamicProgramPool::Single(single) => single.history(v),
            DynamicProgramPool::Multiple(multiple) => multiple.history(v),
        }
    }

    fn compute<A: Arithmetic>(&mut self)
        ensures
            final(self).computed::<A>(),
            *final(self) is Single <==> *old(self) is Single,
    {
        match self {
            DynamicProgramPool::Single(single) => {
                DynamicProgram::compute::<A>(single);
                proof {
                    single.lemma_computed_unfolds::<A>();
                }
            },
            DynamicProgramPool::Multiple(multiple) => {
                MultiDynamicProgram::compute::<A>(multiple);
                proof {
                    multiple.lemma_computed_unfolds::<A>();
                }
            },
        }
    }

    fn field_probabilities(&self) -> (f: Vec<Vec<u64>>) {
        match self {
            DynamicProgramPool::Single(single) => single.field_probabilities(),
            DynamicProgramPool::Multiple(multiple) => multiple.field_probabilities(),
        }
    }

    open spec fn picture(&self) -> Seq<u8> {
        self.image()
    }

    fn save(&self) -> (r: Result<Vec<u8>, StoreError>) {
        DynamicProgramPool::save(self)
    }
}

} // verus!
