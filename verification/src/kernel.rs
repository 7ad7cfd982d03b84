//! Kernels: odd-sized square matrices of one-step transition weights.
//!
//! A kernel is addressed by the offset from its centre.  The weight at
//! `(dx, dy)` is what one step that moves by `(dx, dy)` contributes.

use crate::arithmetic::Arithmetic;
use crate::grid::{copied, has_shape, is_square, is_uniform, quarter_turned, rows, same, shifted_index, turned,
    uniform,
};
use crate::grid::{lemma_turned_periodic, lemma_turned_square};
use crate::kernel::generator::{filled, KernelGenerator, KernelGeneratorError};
use crate::kernel::simple_rw::{simple_rw_cell, SimpleRwGenerator};
use vstd::prelude::*;

pub mod biased_correlated_rw;
pub mod biased_rw;
pub mod correlated_rw;
pub mod generator;
pub mod levy_walk;
pub mod simple_rw;

verus! {

/// What can go wrong when a kernel is put together from given values.
#[derive(Debug, Clone, Copy, PartialEq, Eq, Structural)]
pub enum KernelError {
    /// The number of values is no square number.
    NotSquare,
    /// The kernel would have an even number of rows.
    SizeEven,
    /// Two kernels of different sizes were combined.
    SizeMismatch,
}

/// A direction of one step.
#[derive(Default, Debug, PartialEq, Eq, Copy, Clone, Hash, Structural)]
pub enum Direction {
    North,
    East,
    South,
    West,
    #[default]
    Stay,
}

impl Direction {
    /// The offset of one step in this direction; north is up, at `y - 1`.
    pub open spec fn delta(self) -> (int, int) {
        match self {
            Direction::North => (0, -1),
            Direction::East => (1, 0),
            Direction::South => (0, 1),
            Direction::West => (-1, 0),
            Direction::Stay => (0, 0),
        }
    }

    /// The position of this direction in the order north, east, south, west, stay.
    pub open spec fn rank(self) -> int {
        match self {
            Direction::North => 0,
            Direction::East => 1,
            Direction::South => 2,
            Direction::West => 3,
            Direction::Stay => 4,
        }
    }

    /// The offset of one step in this direction.
    pub fn offset(self) -> (d: (isize, isize))
        ensures
            (d.0 as int, d.1 as int) == self.delta(),
    {
        match self {
            Direction::North => (0, -1),
            Direction::East => (1, 0),
            Direction::South => (0, 1),
            Direction::West => (-1, 0),
            Direction::Stay => (0, 0),
        }
    }

    /// The direction whose step has the offset `(dx, dy)`, if there is one.
    pub fn from_offset(dx: isize, dy: isize) -> (r: Option<Direction>)
        ensures
            r matches Some(d) ==> d.delta() == (dx as int, dy as int),
            r is None ==> forall|d: Direction| d.delta() != (dx as int, dy as int),
    {
        if dx == 0 && dy == -1 {
            Some(Direction::North)
        } else if dx == 1 && dy == 0 {
            Some(Direction::East)
        } else if dx == 0 && dy == 1 {
            Some(Direction::South)
        } else if dx == -1 && dy == 0 {
            Some(Direction::West)
        } else if dx == 0 && dy == 0 {
            Some(Direction::Stay)
        } else {
            None
        }
    }

    /// The five directions in their order: north, east, south, west, stay.
    pub fn all() -> (ds: [Direction; 5])
        ensures
            forall|d: Direction| ds@[d.rank()] == d,
    {
        [Direction::North, Direction::East, Direction::South, Direction::West, Direction::Stay]
    }
}

/// One value for each direction.
#[derive(Default, Debug)]
pub struct Directions<T> {
    pub north: T,
    pub east: T,
    pub south: T,
    pub west: T,
    pub stay: T,
}

impl<T> Directions<T> {
    /// The value kept for `direction`.
    pub open spec fn of(&self, direction: Direction) -> T {
        match direction {
            Direction::North => self.north,
            Direction::East => self.east,
            Direction::South => self.south,
            Direction::West => self.west,
            Direction::Stay => self.stay,
        }
    }

    /// The value kept for `direction`.
    pub fn get(&self, direction: Direction) -> (v: &T)
        ensures
            *v == self.of(direction),
    {
        match direction {
            Direction::North => &self.north,
            Direction::East => &self.east,
            Direction::South => &self.south,
            Direction::West => &self.west,
            Direction::Stay => &self.stay,
        }
    }

    /// Replaces the value kept for `direction`.
    pub fn put(&mut self, direction: Direction, value: T)
        ensures
            final(self).of(direction) == value,
            forall|d: Direction| d != direction ==> final(self).of(d) == old(self).of(d),
    {
        match direction {
            Direction::North => self.north = value,
            Direction::East => self.east = value,
            Direction::South => self.south = value,
            Direction::West => self.west = value,
            Direction::Stay => self.stay = value,
        }
    }
}

impl<T: Default> Directions<T> {
    /// The default value for each direction.
    pub fn new() -> (d: Self)
        ensures
            forall|direction: Direction|
                call_ensures(T::default, (), #[trigger] d.of(direction)),
    {
        Self {
            north: Default::default(),
            east: Default::default(),
            south: Default::default(),
            west: Default::default(),
            stay: Default::default(),
        }
    }
}

/// Whether `kernel` is kernel number `variant` of `generator`: it holds the
/// weights that the generator declares, under the generator's name.
pub open spec fn generated_by<A: Arithmetic, G: KernelGenerator<A>>(
    kernel: Kernel,
    generator: G,
    variant: int,
) -> bool {
    &&& filled(
        kernel,
        generator.extent(),
        |x: usize, y: usize| generator.cell(variant as usize, x, y),
    )
    &&& kernel.names() == (generator.label().0@, generator.label().1@)
}

/// A square matrix of transition weights, addressed from its centre.
#[derive(Debug)]
pub struct Kernel {
    /// The weights by column and row: `probabilities[x][y]`.
    pub probabilities: Vec<Vec<u64>>,
    /// The short and the long name.
    pub name: (String, String),
}

impl Kernel {
    /// The weights by column and row.
    pub open spec fn grid(&self) -> Seq<Seq<u64>> {
        rows(self.probabilities)
    }

    /// The number of columns, which for a well-formed kernel is that of rows.
    pub open spec fn side(&self) -> nat {
        self.probabilities@.len()
    }

    /// Whether the matrix is square.
    pub open spec fn wf(&self) -> bool {
        is_square(self.grid(), self.side())
    }

    /// How far the kernel reaches from its centre.
    pub open spec fn radius(&self) -> int {
        self.side() as int / 2
    }

    /// Whether the kernel has a cell at the offset `(dx, dy)`.
    pub open spec fn covers(&self, dx: int, dy: int) -> bool {
        &&& 0 <= self.radius() + dx < self.side()
        &&& 0 <= self.radius() + dy < self.side()
    }

    /// The weight at the offset `(dx, dy)`.
    pub open spec fn weight(&self, dx: int, dy: int) -> u64 {
        self.grid()[self.radius() + dx][self.radius() + dy]
    }

    /// The short and the long name.
    pub open spec fn names(&self) -> (Seq<char>, Seq<char>) {
        (self.name.0@, self.name.1@)
    }

    /// Whether the matrix is square.
    pub fn is_wf(&self) -> (r: bool)
        ensures
            r == self.wf(),
    {
        has_shape(&self.probabilities, self.probabilities.len())
    }

    /// A kernel of `size` columns and rows with every weight zero.
    pub fn try_new(size: usize, name: (String, String)) -> (r: Result<Kernel, KernelGeneratorError>)
        ensures
            size % 2 == 0 <==> r == Err::<Kernel, _>(KernelGeneratorError::SizeEven),
            size % 2 == 1 <==> r is Ok,
            r matches Ok(k) ==> is_uniform(k.grid(), size as nat, 0) && k.names() == (
                name.0@,
                name.1@,
            ),
    {
        if size % 2 == 0 {
            return Err(KernelGeneratorError::SizeEven);
        }
        Ok(Kernel { probabilities: uniform(size, 0), name })
    }

    /// A kernel without cells, to be sized by a generator.
    pub fn unprepared(name: (String, String)) -> (k: Kernel)
        ensures
            k.side() == 0,
            k.names() == (name.0@, name.1@),
    {
        Kernel { probabilities: Vec::new(), name }
    }

    /// Replaces the weights by `size` columns and rows of zeros.
    pub fn initialize(&mut self, size: usize) -> (r: Result<(), KernelGeneratorError>)
        ensures
            final(self).names() == old(self).names(),
            size % 2 == 1 ==> r is Ok && is_uniform(final(self).grid(), size as nat, 0),
            size % 2 == 0 ==> r == Err::<(), _>(KernelGeneratorError::SizeEven),
            size % 2 == 0 ==> final(self).grid() == old(self).grid(),
    {
        if size % 2 == 1 {
            self.probabilities = uniform(size, 0);
            Ok(())
        } else {
            Err(KernelGeneratorError::SizeEven)
        }
    }

    /// The number of columns.
    pub fn size(&self) -> (n: usize)
        ensures
            n == self.side(),
    {
        self.probabilities.len()
    }

    /// The index of the column or row at the offset `d` from the centre.
    fn index_of(&self, d: isize) -> (i: usize)
        requires
            0 <= self.radius() + d < self.side(),
        ensures
            i == self.radius() + d,
    {
        shifted_index(self.probabilities.len() / 2, d)
    }

    /// Sets the weight at the offset `(x, y)`.
    pub fn set(&mut self, x: isize, y: isize, val: u64)
        requires
            old(self).wf(),
            old(self).covers(x as int, y as int),
        ensures
            final(self).wf(),
            final(self).side() == old(self).side(),
            final(self).names() == old(self).names(),
            final(self).weight(x as int, y as int) == val,
            forall|dx: int, dy: int|
                old(self).covers(dx, dy) && (dx, dy) != (x as int, y as int) ==> final(self).weight(
                    dx,
                    dy,
                ) == old(self).weight(dx, dy),
    {
        let i = self.index_of(x);
        let j = self.index_of(y);
        assert(old(self).grid()[i as int].len() == old(self).side());
        self.probabilities[i][j] = val;
        assert forall|a: int| 0 <= a < self.side() implies (#[trigger] self.grid()[a]).len()
            == self.side() by {
            assert(old(self).grid()[a].len() == old(self).side());
        }
        assert forall|dx: int, dy: int|
            old(self).covers(dx, dy) && (dx, dy) != (x as int, y as int) implies self.weight(dx, dy)
            == old(self).weight(dx, dy) by {
            let a = self.radius() + dx;
            let b = self.radius() + dy;
            assert(self.grid()[a][b] == self.probabilities@[a]@[b]);
            assert(old(self).grid()[a][b] == old(self).probabilities@[a]@[b]);
        }
    }

    /// The weight at the offset `(x, y)`.
    pub fn at(&self, x: isize, y: isize) -> (w: u64)
        requires
            self.wf(),
            self.covers(x as int, y as int),
        ensures
            w == self.weight(x as int, y as int),
    {
        let i = self.index_of(x);
        let j = self.index_of(y);
        assert(self.grid()[i as int].len() == self.side());
        self.probabilities[i][j]
    }

    /// Turns the kernel clockwise by `degrees`, which has to be a multiple of 90.
    pub fn rotate(&mut self, degrees: usize) -> (r: Result<(), String>)
        requires
            old(self).wf(),
        ensures
            final(self).names() == old(self).names(),
            degrees % 90 == 0 ==> r is Ok && final(self).grid() == turned(
                old(self).grid(),
                (degrees / 90) as nat,
            ),
            degrees % 90 != 0 ==> final(self).grid() == old(self).grid(),
            degrees % 90 != 0 ==> (r matches Err(msg) && msg@
                == "degrees must be a multiple of 90."@),
    {
        if degrees % 90 != 0 {
            return Err("degrees must be a multiple of 90.".to_owned());
        }
        let turns = (degrees / 90) % 4;
        let ghost before = self.grid();
        let ghost n = self.side();
        let mut done: usize = 0;
        while done < turns
            invariant
                done <= turns,
                self.side() == n,
                is_square(before, n),
                self.grid() == turned(before, done as nat),
                self.names() == old(self).names(),
            decreases turns - done,
        {
            proof {
                lemma_turned_square(before, n, done as nat);
            }
            self.probabilities = quarter_turned(&self.probabilities);
            assert(self.grid().len() == n);
            done += 1;
        }
        proof {
            lemma_turned_periodic(before, n, (degrees / 90) as nat);
        }
        Ok(())
    }

    /// The kernel of the simple random walk.
    pub fn simple_rw<A: Arithmetic>() -> (k: Kernel)
        ensures
            filled(k, 3, |x: usize, y: usize| simple_rw_cell::<A>(x, y)),
            k.names() == ("srw"@, "Simple RW"@),
    {
        let mut kernels: Vec<Kernel> = Vec::new();
        kernels.push(Kernel::unprepared(("srw".to_owned(), "Simple RW".to_owned())));
        let _ = SimpleRwGenerator.clear(&mut kernels);
        let _ = SimpleRwGenerator.fill::<A>(&mut kernels);
        kernels[0].clone()
    }

    /// The kernel of a generator that fills one kernel.
    ///
    /// A generator that declares another number of kernels is not asked for
    /// anything.
    pub fn from_generator<A: Arithmetic, G: KernelGenerator<A>>(generator: G) -> (r: Result<
        Kernel,
        KernelGeneratorError,
    >)
        ensures
            generator.quantity() != 1 ==> r == Err::<Kernel, _>(
                KernelGeneratorError::NotEnoughKernels,
            ),
            generator.quantity() == 1 && !generator.accepts(1) ==> r == Err::<Kernel, _>(
                generator.refusal(1),
            ),
            generator.quantity() == 1 && generator.accepts(1) ==> (r matches Ok(k)
                && generated_by::<A, G>(k, generator, 0)),
    {
        if generator.generates_qty() != 1 {
            return Err(KernelGeneratorError::NotEnoughKernels);
        }
        let mut kernels: Vec<Kernel> = Vec::new();
        kernels.push(Kernel::unprepared(generator.name()));
        match generator.prepare(&mut kernels) {
            Ok(()) => {},
            Err(e) => {
                return Err(e);
            },
        }
        match generator.generate(&mut kernels) {
            Ok(()) => {},
            Err(e) => {
                return Err(e);
            },
        }
        let ghost first = kernels@[0];
        let k = kernels[0].clone();
        proof {
            assert(filled(first, generator.extent(), |x: usize, y: usize| generator.cell(0, x, y)));
            assert(k.grid() == first.grid());
        }
        Ok(k)
    }

    /// The kernels of a generator, as many as it declares.
    pub fn multiple_from_generator<A: Arithmetic, G: KernelGenerator<A>>(generator: G) -> (r:
        Result<Vec<Kernel>, KernelGeneratorError>)
        ensures
            !generator.accepts(generator.quantity()) ==> r == Err::<Vec<Kernel>, _>(
                generator.refusal(generator.quantity()),
            ),
            generator.accepts(generator.quantity()) ==> (r matches Ok(ks) && ks@.len()
                == generator.quantity() && forall|v: int|
                0 <= v < generator.quantity() ==> generated_by::<A, G>(
                    #[trigger] ks@[v],
                    generator,
                    v,
                )),
    {
        let qty = generator.generates_qty();
        let mut kernels: Vec<Kernel> = Vec::new();
        let mut made: usize = 0;
        while made < qty
            invariant
                made <= qty,
                kernels@.len() == made,
                forall|v: int|
                    0 <= v < made ==> (#[trigger] kernels@[v]).names() == (
                        generator.label().0@,
                        generator.label().1@,
                    ),
            decreases qty - made,
        {
            kernels.push(Kernel::unprepared(generator.name()));
            made += 1;
        }
        match generator.prepare(&mut kernels) {
            Ok(()) => {},
            Err(e) => {
                return Err(e);
            },
        }
        match generator.generate(&mut kernels) {
            Ok(()) => {},
            Err(e) => {
                return Err(e);
            },
        }
        Ok(kernels)
    }

    /// The short name if `short`, else the long one.
    pub fn name(&self, short: bool) -> (n: String)
        ensures
            n@ == (if short {
                self.names().0
            } else {
                self.names().1
            }),
    {
        if short {
            self.name.0.clone()
        } else {
            self.name.1.clone()
        }
    }
}

impl Clone for Kernel {
    fn clone(&self) -> (k: Self)
        ensures
            k.grid() == self.grid(),
            k.names() == self.names(),
    {
        Kernel {
            probabilities: copied(&self.probabilities),
            name: (self.name.0.clone(), self.name.1.clone()),
        }
    }
}

impl PartialEq for Kernel {
    /// Two kernels are equal if they hold the same weights, whatever their names.
    fn eq(&self, other: &Self) -> (r: bool) {
        same(&self.probabilities, &other.probabilities)
    }
}

impl Eq for Kernel {

}

impl vstd::std_specs::cmp::PartialEqSpecImpl for Kernel {
    open spec fn obeys_eq_spec() -> bool {
        true
    }

    open spec fn eq_spec(&self, other: &Self) -> bool {
        self.grid() == other.grid()
    }
}

/// The cells of `m`, column after column.
pub open spec fn cells_of(m: Seq<Seq<u64>>) -> Seq<u64>
    decreases m.len(),
{
    if m.len() == 0 {
        Seq::empty()
    } else {
        cells_of(m.drop_last()) + m.last()
    }
}

/// The sum of `ws`, added up from the first to the last, starting from the
/// all-zero word.
pub open spec fn summed<A: Arithmetic>(ws: Seq<u64>) -> u64
    decreases ws.len(),
{
    if ws.len() == 0 {
        0
    } else {
        A::sum(summed::<A>(ws.drop_last()), ws.last())
    }
}

/// Whether `n` is the number of columns of a square grid with `count` cells.
pub open spec fn is_side_of(n: int, count: int) -> bool {
    0 <= n && n * n == count
}

/// The square of `n`.
fn square(n: usize) -> (s: u128)
    ensures
        s == n * n,
{
    assert(n * n <= 0xffff_ffff_ffff_ffff * 0xffff_ffff_ffff_ffff) by (nonlinear_arith)
        requires
            0 <= n <= 0xffff_ffff_ffff_ffff,
    ;
    (n as u128) * (n as u128)
}

impl Kernel {
    /// A kernel with the given weights, which are listed row after row.
    ///
    /// The number of weights has to be the square of an odd number.
    pub fn from_values(values: Vec<u64>) -> (r: Result<Kernel, KernelError>)
        ensures
            (forall|n: int| !is_side_of(n, values@.len() as int)) <==> r == Err::<Kernel, _>(
                KernelError::NotSquare,
            ),
            (exists|n: int| is_side_of(n, values@.len() as int) && n % 2 == 0) <==> r == Err::<
                Kernel,
                _,
            >(KernelError::SizeEven),
            (exists|n: int| is_side_of(n, values@.len() as int) && n % 2 == 1) <==> r is Ok,
            r matches Ok(k) ==> {
                &&& k.wf()
                &&& is_side_of(k.side() as int, values@.len() as int)
                &&& forall|x: int, y: int|
                    0 <= x < k.side() && 0 <= y < k.side() ==> (#[trigger] k.grid()[x][y])
                        == values@[y * k.side() + x]
                &&& k.names() == ("ck"@, "Custom Kernel"@)
            },
    {
        let count = values.len();
        let mut size: usize = 0;
        while square(size) < count as u128
            invariant
                size <= count,
                count == values@.len(),
                size == 0 || (size - 1) * (size - 1) < count,
            decreases count - size,
        {
            proof {
                let s = size as int;
                assert(s >= 1 ==> s * s >= s) by (nonlinear_arith)
                    requires
                        s >= 0,
                ;
            }
            size += 1;
        }
        proof {
            let s = size as int;
            assert forall|n: int| n != s implies !#[trigger] is_side_of(n, count as int) by {
                if n > s {
                    assert(n * n > s * s) by (nonlinear_arith)
                        requires
                            n > s,
                            s >= 0,
                    ;
                } else if 0 <= n {
                    assert(n * n <= (s - 1) * (s - 1)) by (nonlinear_arith)
                        requires
                            0 <= n <= s - 1,
                    ;
                }
            }
        }
        if square(size) != count as u128 {
            return Err(KernelError::NotSquare);
        }
        assert(is_side_of(size as int, count as int));
        if size % 2 == 0 {
            return Err(KernelError::SizeEven);
        }
        let mut probabilities: Vec<Vec<u64>> = Vec::new();
        let mut x: usize = 0;
        while x < size
            invariant
                x <= size,
                size * size == count,
                count == values@.len(),
                probabilities@.len() == x,
                forall|a: int| 0 <= a < x ==> (#[trigger] probabilities@[a])@.len() == size,
                forall|a: int, b: int|
                    0 <= a < x && 0 <= b < size ==> (#[trigger] probabilities@[a]@[b])
                        == values@[b * size + a],
            decreases size - x,
        {
            let mut column: Vec<u64> = Vec::new();
            let mut y: usize = 0;
            while y < size
                invariant
                    x < size,
                    y <= size,
                    size * size == count,
                    count == values@.len(),
                    column@.len() == y,
                    forall|b: int| 0 <= b < y ==> (#[trigger] column@[b]) == values@[b * size + x],
                decreases size - y,
            {
                assert(y * size + x < size * size) by (nonlinear_arith)
                    requires
                        0 <= y < size,
                        0 <= x < size,
                ;
                assert(y * size >= 0) by (nonlinear_arith)
                    requires
                        y >= 0,
                        size >= 0,
                ;
                column.push(values[y * size + x]);
                y += 1;
            }
            probabilities.push(column);
            x += 1;
        }
        let k = Kernel { probabilities, name: ("ck".to_owned(), "Custom Kernel".to_owned()) };
        proof {
            assert forall|a: int, b: int| 0 <= a < k.side() && 0 <= b < k.side() implies (
            #[trigger] k.grid()[a][b]) == values@[b * k.side() + a] by {
                assert(k.probabilities@[a]@[b] == values@[b * size + a]);
            }
        }
        Ok(k)
    }

    /// The kernel whose weights are the products of the weights of `self`
    /// and `rhs`, cell by cell.
    pub fn multiply<A: Arithmetic>(&self, rhs: &Kernel) -> (r: Result<Kernel, KernelError>)
        requires
            self.wf(),
            rhs.wf(),
        ensures
            self.side() != rhs.side() <==> r == Err::<Kernel, _>(KernelError::SizeMismatch),
            self.side() == rhs.side() <==> r is Ok,
            r matches Ok(k) ==> {
                &&& k.wf()
                &&& k.side() == self.side()
                &&& k.names() == self.names()
                &&& forall|x: int, y: int|
                    0 <= x < k.side() && 0 <= y < k.side() ==> (#[trigger] k.grid()[x][y])
                        == A::product(self.grid()[x][y], rhs.grid()[x][y])
            },
    {
        let size = self.probabilities.len();
        if size != rhs.probabilities.len() {
            return Err(KernelError::SizeMismatch);
        }
        let mut probabilities: Vec<Vec<u64>> = Vec::new();
        let mut x: usize = 0;
        while x < size
            invariant
                x <= size,
                size == self.side(),
                size == rhs.side(),
                self.wf(),
                rhs.wf(),
                probabilities@.len() == x,
                forall|a: int| 0 <= a < x ==> (#[trigger] probabilities@[a])@.len() == size,
                forall|a: int, b: int|
                    0 <= a < x && 0 <= b < size ==> (#[trigger] probabilities@[a]@[b])
                        == A::product(self.grid()[a][b], rhs.grid()[a][b]),
            decreases size - x,
        {
            let mut column: Vec<u64> = Vec::new();
            let mut y: usize = 0;
            assert(self.grid()[x as int].len() == size);
            assert(rhs.grid()[x as int].len() == size);
            while y < size
                invariant
                    x < size,
                    y <= size,
                    size == self.side(),
                    size == rhs.side(),
                    self.grid()[x as int].len() == size,
                    rhs.grid()[x as int].len() == size,
                    column@.len() == y,
                    forall|b: int|
                        0 <= b < y ==> (#[trigger] column@[b]) == A::product(
                            self.grid()[x as int][b],
                            rhs.grid()[x as int][b],
                        ),
                decreases size - y,
            {
                column.push(A::times(self.probabilities[x][y], rhs.probabilities[x][y]));
                y += 1;
            }
            probabilities.push(column);
            x += 1;
        }
        let k = Kernel { probabilities, name: (self.name.0.clone(), self.name.1.clone()) };
        proof {
            assert forall|a: int, b: int| 0 <= a < k.side() && 0 <= b < k.side() implies (
            #[trigger] k.grid()[a][b]) == A::product(self.grid()[a][b], rhs.grid()[a][b]) by {
                assert(k.probabilities@[a]@[b] == A::product(self.grid()[a][b], rhs.grid()[a][b]));
            }
        }
        Ok(k)
    }

    /// Multiplies the weights by those of `rhs`, cell by cell.  Kernels of
    /// different sizes are left as they are.
    pub fn multiply_assign<A: Arithmetic>(&mut self, rhs: &Kernel) -> (r: Result<(), KernelError>)
        requires
            old(self).wf(),
            rhs.wf(),
        ensures
            final(self).wf(),
            final(self).side() == old(self).side(),
            final(self).names() == old(self).names(),
            old(self).side() != rhs.side() <==> r == Err::<(), _>(KernelError::SizeMismatch),
            old(self).side() == rhs.side() <==> r is Ok,
            r is Err ==> final(self).grid() == old(self).grid(),
            r is Ok ==> forall|x: int, y: int|
                0 <= x < old(self).side() && 0 <= y < old(self).side() ==> (#[trigger] final(self).grid()[x][y]) == A::product(old(self).grid()[x][y], rhs.grid()[x][y]),
    {
        match self.multiply::<A>(rhs) {
            Ok(k) => {
                self.probabilities = k.probabilities;
                Ok(())
            },
            Err(e) => Err(e),
        }
    }

    /// The sum of all weights, added up column after column.
    pub fn total<A: Arithmetic>(&self) -> (t: u64)
        ensures
            t == summed::<A>(cells_of(self.grid())),
    {
        let ghost g = self.grid();
        let mut t: u64 = 0;
        let mut x: usize = 0;
        assert(cells_of(g.take(0)) =~= Seq::empty());
        while x < self.probabilities.len()
            invariant
                x <= self.side(),
                g == self.grid(),
                t == summed::<A>(cells_of(g.take(x as int))),
            decreases self.side() - x,
        {
            let ghost before = cells_of(g.take(x as int));
            let mut y: usize = 0;
            assert(before + g[x as int].take(0) =~= before);
            while y < self.probabilities[x].len()
                invariant
                    x < self.side(),
                    g == self.grid(),
                    y <= g[x as int].len(),
                    t == summed::<A>(before + g[x as int].take(y as int)),
                decreases g[x as int].len() - y,
            {
                let ghost sofar = before + g[x as int].take(y as int);
                t = A::plus(t, self.probabilities[x][y]);
                proof {
                    let longer = before + g[x as int].take(y + 1);
                    assert(longer.drop_last() =~= sofar);
                    assert(longer.last() == g[x as int][y as int]);
                }
                y += 1;
            }
            proof {
                assert(g[x as int].take(y as int) =~= g[x as int]);
                assert(g.take(x + 1).drop_last() =~= g.take(x as int));
                assert(g.take(x + 1).last() == g[x as int]);
            }
            x += 1;
        }
        assert(g.take(x as int) =~= g);
        t
    }

    /// Divides every weight by the sum of all weights.
    pub fn normalize<A: Arithmetic>(&mut self)
        requires
            old(self).wf(),
        ensures
            final(self).wf(),
            final(self).side() == old(self).side(),
            final(self).names() == old(self).names(),
            forall|x: int, y: int|
                0 <= x < old(self).side() && 0 <= y < old(self).side() ==> (#[trigger] final(self).grid()[x][y]) == A::quotient(
                    old(self).grid()[x][y],
                    summed::<A>(cells_of(old(self).grid())),
                ),
    {
        let total = self.total::<A>();
        let size = self.probabilities.len();
        let mut probabilities: Vec<Vec<u64>> = Vec::new();
        let mut x: usize = 0;
        while x < size
            invariant
                x <= size,
                size == self.side(),
                self.wf(),
                probabilities@.len() == x,
                forall|a: int| 0 <= a < x ==> (#[trigger] probabilities@[a])@.len() == size,
                forall|a: int, b: int|
                    0 <= a < x && 0 <= b < size ==> (#[trigger] probabilities@[a]@[b])
                        == A::quotient(self.grid()[a][b], total),
            decreases size - x,
        {
            let mut column: Vec<u64> = Vec::new();
            let mut y: usize = 0;
            assert(self.grid()[x as int].len() == size);
            while y < size
                invariant
                    x < size,
                    y <= size,
                    size == self.side(),
                    self.grid()[x as int].len() == size,
                    column@.len() == y,
                    forall|b: int|
                        0 <= b < y ==> (#[trigger] column@[b]) == A::quotient(
                            self.grid()[x as int][b],
                            total,
                        ),
                decreases size - y,
            {
                column.push(A::over(self.probabilities[x][y], total));
                y += 1;
            }
            probabilities.push(column);
            x += 1;
        }
        let ghost scaled = rows(probabilities);
        proof {
            assert forall|a: int, b: int| 0 <= a < size && 0 <= b < size implies (
            #[trigger] scaled[a][b]) == A::quotient(self.grid()[a][b], total) by {
                assert(probabilities@[a]@[b] == A::quotient(self.grid()[a][b], total));
            }
        }
        self.probabilities = probabilities;
    }
}

} // verus!
