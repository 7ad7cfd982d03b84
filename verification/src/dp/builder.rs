//! The builder of dynamic programs.
//!
//! The builder collects the options, and `build` checks them before anything
//! is computed: a time limit and a kind are needed; a simple program takes
//! one kernel and a multi program a list of them; field probabilities, where
//! given, have the shape of the grid; and every barrier lies on the grid.

use crate::arithmetic::Arithmetic;
use crate::dataset::point::XYPoint;
use crate::dp::multi::MultiDynamicProgram;
use crate::dp::recurrence::{addressable, inside, layer_cell};
use crate::dp::simple::DynamicProgram;
use crate::dp::{DynamicProgramPool, DynamicProgramType};
use crate::grid::{has_shape, is_square, is_uniform, rows, shifted_index, uniform};
use crate::kernel::Kernel;
use vstd::prelude::*;

verus! {

/// What can be wrong with the options given to a builder.
#[derive(Debug, Clone, Copy, PartialEq, Eq, Structural)]
pub enum DynamicProgramBuilderError {
    /// No kind of dynamic program was chosen.
    NoTypeSet,
    /// No time limit was set.
    NoTimeLimitSet,
    /// A simple program needs a kernel and none was set.
    NoKernelSet,
    /// A multi program needs kernels and none were set.
    NoKernelsSet,
    /// A multi program takes several kernels, and a single one was set.
    SingleKernelForMulti,
    /// A simple program takes one kernel, and several were set.
    MultipleKernelsForSimple,
    /// The grid of field probabilities has not the shape of the table.
    WrongSizeOfFieldProbabilities,
    /// A barrier lies outside the grid.
    BarrierOutOfRange,
}

/// The points of column `x` from row `from_y` to row `to_y`, in this order.
pub open spec fn column_points(x: int, from_y: int, to_y: int) -> Seq<XYPoint> {
    Seq::new(
        if to_y >= from_y {
            (to_y - from_y + 1) as nat
        } else {
            0
        },
        |k: int| XYPoint { x: x as i64, y: (from_y + k) as i64 },
    )
}

/// The points of the rectangle from `(from_x, from_y)` to `(to_x, to_y)`,
/// column by column.
pub open spec fn rect_points(from_x: int, to_x: int, from_y: int, to_y: int) -> Seq<XYPoint>
    decreases to_x - from_x + 1,
{
    if to_x < from_x {
        Seq::empty()
    } else {
        rect_points(from_x, to_x - 1, from_y, to_y) + column_points(to_x, from_y, to_y)
    }
}

/// Whether one of the first `n` of `barriers` is the point `(x, y)`.
pub open spec fn barred(barriers: Seq<XYPoint>, n: int, x: int, y: int) -> bool {
    exists|k: int| 0 <= k < n && (#[trigger] barriers[k]).x == x && barriers[k].y == y
}

/// Whether one of the first `n` of `barriers` lies outside the grid that
/// reaches from `-limit` to `limit`.
pub open spec fn strays(barriers: Seq<XYPoint>, n: int, limit: int) -> bool {
    exists|k: int|
        0 <= k < n && !inside(limit, (#[trigger] barriers[k]).x as int, barriers[k].y as int)
}

/// Collects the options of a dynamic program and builds it.
#[derive(Debug)]
pub struct DynamicProgramBuilder {
    /// The last time step, and the greatest coordinate.
    pub time_limit: Option<usize>,
    /// The kind of program.
    pub dp_type: Option<DynamicProgramType>,
    /// The kernel of a program with one table.
    pub kernel: Option<Kernel>,
    /// The kernels of a program with several tables.
    pub kernels: Option<Vec<Kernel>>,
    /// The field probabilities by column and row.
    pub field_probabilities: Option<Vec<Vec<u64>>>,
    /// The cells whose field probability is cleared.
    pub barriers: Vec<XYPoint>,
}

impl DynamicProgramBuilder {
    /// A builder with no option set.
    pub fn new() -> (b: Self)
        ensures
            b.time_limit is None,
            b.dp_type is None,
            b.kernel is None,
            b.kernels is None,
            b.field_probabilities is None,
            b.barriers@.len() == 0,
    {
        Self {
            time_limit: None,
            dp_type: None,
            kernel: None,
            kernels: None,
            field_probabilities: None,
            barriers: Vec::new(),
        }
    }

    /// Chooses a program with one table.
    pub fn simple(self) -> (b: Self)
        ensures
            b == (DynamicProgramBuilder { dp_type: Some(DynamicProgramType::Simple), ..self }),
    {
        let mut b = self;
        b.dp_type = Some(DynamicProgramType::Simple);
        b
    }

    /// Chooses a program with one table for each kernel.
    pub fn multi(self) -> (b: Self)
        ensures
            b == (DynamicProgramBuilder { dp_type: Some(DynamicProgramType::Multi), ..self }),
    {
        let mut b = self;
        b.dp_type = Some(DynamicProgramType::Multi);
        b
    }

    /// Chooses the kind of program.
    pub fn with_type(self, dp_type: DynamicProgramType) -> (b: Self)
        ensures
            b == (DynamicProgramBuilder { dp_type: Some(dp_type), ..self }),
    {
        let mut b = self;
        b.dp_type = Some(dp_type);
        b
    }

    /// Sets the time limit.
    pub fn time_limit(self, time_limit: usize) -> (b: Self)
        ensures
            b == (DynamicProgramBuilder { time_limit: Some(time_limit), ..self }),
    {
        let mut b = self;
        b.time_limit = Some(time_limit);
        b
    }

    /// Sets the kernel of a simple program.
    pub fn kernel(self, kernel: Kernel) -> (b: Self)
        ensures
            b == (DynamicProgramBuilder { kernel: Some(kernel), ..self }),
    {
        let mut b = self;
        b.kernel = Some(kernel);
        b
    }

    /// Sets the kernels of a multi program.
    pub fn kernels(self, kernels: Vec<Kernel>) -> (b: Self)
        ensures
            b == (DynamicProgramBuilder { kernels: Some(kernels), ..self }),
    {
        let mut b = self;
        b.kernels = Some(kernels);
        b
    }

    /// Sets the field probabilities, by column and row.
    pub fn field_probabilities(self, probabilities: Vec<Vec<u64>>) -> (b: Self)
        ensures
            b == (DynamicProgramBuilder { field_probabilities: Some(probabilities), ..self }),
    {
        let mut b = self;
        b.field_probabilities = Some(probabilities);
        b
    }

    /// Adds a barrier at one cell.
    pub fn add_single_barrier(self, at: XYPoint) -> (b: Self)
        ensures
            b.barriers@ == self.barriers@.push(at),
            b.time_limit == self.time_limit,
            b.dp_type == self.dp_type,
            b.kernel == self.kernel,
            b.kernels == self.kernels,
            b.field_probabilities == self.field_probabilities,
    {
        let mut b = self;
        b.barriers.push(at);
        b
    }

    /// Adds a barrier at every cell of the rectangle between `from` and `to`.
    pub fn add_rect_barrier(self, from: XYPoint, to: XYPoint) -> (b: Self)
        ensures
            b.barriers@ == self.barriers@ + rect_points(
                from.x as int,
                to.x as int,
                from.y as int,
                to.y as int,
            ),
            b.time_limit == self.time_limit,
            b.dp_type == self.dp_type,
            b.kernel == self.kernel,
            b.kernels == self.kernels,
            b.field_probabilities == self.field_probabilities,
    {
        let mut b = self;
        let ghost given = b.barriers@;
        let mut x: i128 = from.x as i128;
        assert(rect_points(from.x as int, from.x - 1, from.y as int, to.y as int) =~= Seq::empty());
        while x <= to.x as i128
            invariant
                from.x <= x <= to.x + 1 || (x == from.x && from.x > to.x),
                b.barriers@ == given + rect_points(
                    from.x as int,
                    x - 1,
                    from.y as int,
                    to.y as int,
                ),
                b.time_limit == self.time_limit,
                b.dp_type == self.dp_type,
                b.kernel == self.kernel,
                b.kernels == self.kernels,
                b.field_probabilities == self.field_probabilities,
            decreases to.x + 1 - x,
        {
            let ghost before = b.barriers@;
            let mut y: i128 = from.y as i128;
            assert(before + column_points(x as int, from.y as int, from.y - 1) =~= before);
            while y <= to.y as i128
                invariant
                    from.x <= x <= to.x,
                    from.y <= y <= to.y + 1 || (y == from.y && from.y > to.y),
                    b.barriers@ == before + column_points(x as int, from.y as int, y - 1),
                    b.time_limit == self.time_limit,
                    b.dp_type == self.dp_type,
                    b.kernel == self.kernel,
                    b.kernels == self.kernels,
                    b.field_probabilities == self.field_probabilities,
                decreases to.y + 1 - y,
            {
                b.barriers.push(XYPoint { x: x as i64, y: y as i64 });
                assert(b.barriers@ =~= before + column_points(x as int, from.y as int, y as int));
                y += 1;
            }
            proof {
                if from.y > to.y {
                    assert(column_points(x as int, from.y as int, y - 1) =~= column_points(
                        x as int,
                        from.y as int,
                        to.y as int,
                    ));
                }
                assert(b.barriers@ =~= given + rect_points(
                    from.x as int,
                    x as int,
                    from.y as int,
                    to.y as int,
                ));
            }
            x += 1;
        }
        proof {
            if from.x > to.x {
                assert(rect_points(from.x as int, to.x as int, from.y as int, to.y as int)
                    =~= Seq::empty());
                assert(rect_points(from.x as int, x - 1, from.y as int, to.y as int) =~= Seq::empty());
            }
        }
        b
    }

    /// Why `build` refuses the options, if it does.
    pub open spec fn refusal(&self) -> Option<DynamicProgramBuilderError> {
        match (self.time_limit, self.dp_type) {
            (None, _) => Some(DynamicProgramBuilderError::NoTimeLimitSet),
            (Some(_), None) => Some(DynamicProgramBuilderError::NoTypeSet),
            (Some(limit), Some(kind)) => {
                if self.field_probabilities matches Some(given) && !is_square(
                    rows(given),
                    (2 * limit + 1) as nat,
                ) {
                    Some(DynamicProgramBuilderError::WrongSizeOfFieldProbabilities)
                } else if strays(self.barriers@, self.barriers@.len() as int, limit as int) {
                    Some(DynamicProgramBuilderError::BarrierOutOfRange)
                } else {
                    match kind {
                        DynamicProgramType::Simple => {
                            if self.kernels is Some {
                                Some(DynamicProgramBuilderError::MultipleKernelsForSimple)
                            } else if self.kernel is None {
                                Some(DynamicProgramBuilderError::NoKernelSet)
                            } else {
                                None
                            }
                        },
                        DynamicProgramType::Multi => {
                            if self.kernel is Some {
                                Some(DynamicProgramBuilderError::SingleKernelForMulti)
                            } else if self.kernels is None {
                                Some(DynamicProgramBuilderError::NoKernelsSet)
                            } else {
                                None
                            }
                        },
                    }
                }
            },
        }
    }

    /// The field probability that the program gets for `(x, y)`: the all-zero
    /// word under a barrier, else what was given, else one.
    pub open spec fn share<A: Arithmetic>(&self, x: int, y: int) -> u64 {
        if barred(self.barriers@, self.barriers@.len() as int, x, y) {
            0
        } else {
            match self.field_probabilities {
                Some(given) => layer_cell(rows(given), self.time_limit->0 as int, x, y),
                None => A::fraction(1, 1),
            }
        }
    }

    /// Whether `mask` holds the field probabilities that the program gets.
    pub open spec fn shares<A: Arithmetic>(&self, mask: Seq<Seq<u64>>) -> bool {
        let limit = self.time_limit->0 as int;
        &&& is_square(mask, (2 * limit + 1) as nat)
        &&& forall|x: int, y: int|
            inside(limit, x, y) ==> #[trigger] layer_cell(mask, limit, x, y) == self.share::<A>(
                x,
                y,
            )
    }

    /// Whether `pool` is the program that the options describe, with nothing
    /// computed yet.
    pub open spec fn describes<A: Arithmetic>(&self, pool: DynamicProgramPool) -> bool {
        let limit = self.time_limit->0;
        match pool {
            DynamicProgramPool::Single(dp) => {
                &&& self.dp_type == Some(DynamicProgramType::Simple)
                &&& dp.wf()
                &&& dp.time_limit == limit
                &&& self.kernel == Some(dp.kernel)
                &&& self.shares::<A>(dp.mask())
                &&& forall|t: int|
                    0 <= t <= limit ==> is_uniform(
                        #[trigger] dp.layer(t),
                        (2 * limit + 1) as nat,
                        0,
                    )
            },
            DynamicProgramPool::Multiple(dp) => {
                &&& self.dp_type == Some(DynamicProgramType::Multi)
                &&& dp.wf()
                &&& dp.time_limit == limit
                &&& self.kernels == Some(dp.kernels)
                &&& self.shares::<A>(dp.mask())
                &&& forall|t: int, v: int|
                    0 <= t <= limit && 0 <= v < dp.kernels@.len() ==> is_uniform(
                        #[trigger] dp.layer(t, v),
                        (2 * limit + 1) as nat,
                        0,
                    )
            },
        }
    }

    /// Builds the program, or says which option is missing or wrong.
    pub fn build<A: Arithmetic>(self) -> (r: Result<DynamicProgramPool, DynamicProgramBuilderError>)
        requires
            self.time_limit matches Some(limit) ==> addressable(limit),
        ensures
            match self.refusal() {
                Some(e) => r == Err::<DynamicProgramPool, _>(e),
                None => r matches Ok(pool) && self.describes::<A>(pool),
            },
    {
        let time_limit = match self.time_limit {
            Some(time_limit) => time_limit,
            None => {
                return Err(DynamicProgramBuilderError::NoTimeLimitSet);
            },
        };
        let dp_type = match self.dp_type {
            Some(dp_type) => dp_type,
            None => {
                return Err(DynamicProgramBuilderError::NoTypeSet);
            },
        };
        let width = 2 * time_limit + 1;
        let ghost limit = time_limit as int;
        let ghost barriers = self.barriers@;
        let ghost given = self.field_probabilities;
        let mut field_probabilities = match self.field_probabilities {
            Some(fp) => {
                if !has_shape(&fp, width) {
                    return Err(DynamicProgramBuilderError::WrongSizeOfFieldProbabilities);
                }
                fp
            },
            None => uniform(width, A::ratio(1, 1)),
        };
        let ghost start = rows(field_probabilities);
        let mut k: usize = 0;
        while k < self.barriers.len()
            invariant
                k <= barriers.len(),
                barriers == self.barriers@,
                self.time_limit == Some(time_limit),
                self.dp_type == Some(dp_type),
                self.field_probabilities matches Some(g) ==> is_square(rows(g), width as nat),
                limit == time_limit,
                width == 2 * time_limit + 1,
                addressable(time_limit),
                is_square(start, width as nat),
                is_square(rows(field_probabilities), width as nat),
                !strays(barriers, k as int, limit),
                forall|x: int, y: int|
                    inside(limit, x, y) ==> #[trigger] layer_cell(
                        rows(field_probabilities),
                        limit,
                        x,
                        y,
                    ) == (if barred(barriers, k as int, x, y) {
                        0
                    } else {
                        layer_cell(start, limit, x, y)
                    }),
            decreases barriers.len() - k,
        {
            let point = self.barriers[k];
            let bound = time_limit as i64;
            if point.x < -bound || point.x > bound || point.y < -bound || point.y > bound {
                assert(!inside(limit, barriers[k as int].x as int, barriers[k as int].y as int));
                assert(strays(barriers, barriers.len() as int, limit));
                return Err(DynamicProgramBuilderError::BarrierOutOfRange);
            }
            let column = shifted_index(time_limit, point.x as isize);
            let row = shifted_index(time_limit, point.y as isize);
            let ghost before = rows(field_probabilities);
            assert(before[column as int].len() == width);
            field_probabilities[column][row] = 0;
            proof {
                assert forall|a: int| 0 <= a < width implies (#[trigger] rows(
                    field_probabilities,
                )[a]).len() == width by {
                    assert(before[a].len() == width);
                }
                assert forall|x: int, y: int| inside(limit, x, y) implies #[trigger] layer_cell(
                    rows(field_probabilities),
                    limit,
                    x,
                    y,
                ) == (if barred(barriers, k + 1, x, y) {
                    0
                } else {
                    layer_cell(start, limit, x, y)
                }) by {
                    assert(before[limit + x].len() == width);
                    if x == point.x && y == point.y {
                        assert(barriers[k as int].x == x && barriers[k as int].y == y);
                    } else {
                        assert(layer_cell(rows(field_probabilities), limit, x, y) == layer_cell(
                            before,
                            limit,
                            x,
                            y,
                        ));
                        if barred(barriers, k as int, x, y) {
                            let w = choose|w: int|
                                0 <= w < k && (#[trigger] barriers[w]).x == x && barriers[w].y == y;
                            assert(barriers[w].x == x && barriers[w].y == y);
                        }
                    }
                }
                assert(!strays(barriers, k + 1, limit)) by {
                    if strays(barriers, k + 1, limit) {
                        let w = choose|w: int|
                            0 <= w < k + 1 && !inside(
                                limit,
                                (#[trigger] barriers[w]).x as int,
                                barriers[w].y as int,
                            );
                        if w < k {
                            assert(strays(barriers, k as int, limit));
                        }
                    }
                }
            }
            k += 1;
        }
        proof {
            assert forall|x: int, y: int| inside(limit, x, y) implies #[trigger] layer_cell(
                rows(field_probabilities),
                limit,
                x,
                y,
            ) == self.share::<A>(x, y) by {
                assert(start[limit + x].len() == width);
            }
        }
        match dp_type {
            DynamicProgramType::Simple => {
                if self.kernels.is_some() {
                    return Err(DynamicProgramBuilderError::MultipleKernelsForSimple);
                }
                match self.kernel {
                    Some(kernel) => Ok(
                        DynamicProgramPool::Single(
                            DynamicProgram::new(time_limit, kernel, field_probabilities),
                        ),
                    ),
                    None => Err(DynamicProgramBuilderError::NoKernelSet),
                }
            },
            DynamicProgramType::Multi => {
                if self.kernel.is_some() {
                    return Err(DynamicProgramBuilderError::SingleKernelForMulti);
                }
                match self.kernels {
                    Some(kernels) => Ok(
                        DynamicProgramPool::Multiple(
                            MultiDynamicProgram::new(time_limit, kernels, field_probabilities),
                        ),
                    ),
                    None => Err(DynamicProgramBuilderError::NoKernelsSet),
                }
            },
        }
    }
}

} // verus!
