//! Saving and restoring dynamic programs.
//!
//! A program is written as 8-byte little-endian words: the time limit, for a
//! program with several tables the number of variants, then the table in the
//! order time, variant, column, row, then the field probabilities by column
//! and row.  These bytes are compressed as one zstd frame.  The kernels are
//! not written; a restored program gets kernels of zeros in their place.

use crate::dp::image::{
    grid_words, is_pile, is_stack, lemma_grid_words_injective, lemma_grid_words_len,
    lemma_pile_words_injective, lemma_pile_words_len, lemma_split, lemma_stack_words_injective,
    lemma_stack_words_len, lemma_word_at, lemma_words_bytes_injective, lemma_words_bytes_len,
    pile_words, stack_words, word_at, word_count, words_bytes,
};
use crate::dp::multi::MultiDynamicProgram;
use crate::dp::recurrence::addressable;
use crate::dp::simple::DynamicProgram;
use crate::dp::zstd_frame::{compress, decompress, zstd_decoded, zstd_encoded};
use crate::dp::DynamicProgramPool;
use crate::grid::{is_square, is_uniform, layers_of, piles_of, rows, uniform};
use crate::kernel::Kernel;
use vstd::bytes::{
    lemma_auto_spec_u64_to_from_le_bytes, spec_u64_to_le_bytes, u64_from_le_bytes, u64_to_le_bytes,
};
use vstd::prelude::*;
use vstd::slice::slice_subrange;

verus! {

/// Why a program could not be saved or restored.
#[derive(Debug, Clone, Copy, PartialEq, Eq, Structural)]
pub enum StoreError {
    /// The compressor failed.
    Compression,
    /// The bytes are no zstd frame.
    Decompression,
    /// The bytes end before the time limit.
    MissingTimeLimit,
    /// The bytes end before the number of variants.
    MissingVariants,
    /// The bytes end before the table and the field probabilities do.
    Truncated,
}

/// Appends the cells of `grid` to `words`.
fn push_grid(words: &mut Vec<u64>, grid: &Vec<Vec<u64>>)
    ensures
        final(words)@ == old(words)@ + grid_words(rows(*grid)),
{
    let ghost given = words@;
    let ghost g = rows(*grid);
    let mut x: usize = 0;
    assert(grid_words(g.take(0)) =~= Seq::empty());
    assert(given + grid_words(g.take(0)) =~= given);
    while x < grid.len()
        invariant
            x <= grid@.len(),
            g == rows(*grid),
            words@ == given + grid_words(g.take(x as int)),
        decreases grid@.len() - x,
    {
        let ghost before = words@;
        let mut y: usize = 0;
        assert(before + g[x as int].take(0) =~= before);
        while y < grid[x].len()
            invariant
                x < grid@.len(),
                g == rows(*grid),
                y <= grid@[x as int]@.len(),
                words@ == before + g[x as int].take(y as int),
            decreases grid@[x as int]@.len() - y,
        {
            words.push(grid[x][y]);
            assert(words@ =~= before + g[x as int].take(y + 1));
            y += 1;
        }
        proof {
            assert(g[x as int].take(y as int) =~= g[x as int]);
            assert(g.take(x + 1).drop_last() =~= g.take(x as int));
            assert(g.take(x + 1).last() == g[x as int]);
            assert(words@ =~= given + grid_words(g.take(x + 1)));
        }
        x += 1;
    }
    assert(g.take(x as int) =~= g);
}

/// Appends the cells of the grids of `stack` to `words`.
fn push_stack(words: &mut Vec<u64>, stack: &Vec<Vec<Vec<u64>>>)
    ensures
        final(words)@ == old(words)@ + stack_words(layers_of(*stack)),
{
    let ghost given = words@;
    let ghost s = layers_of(*stack);
    let mut t: usize = 0;
    assert(stack_words(s.take(0)) =~= Seq::empty());
    assert(given + stack_words(s.take(0)) =~= given);
    while t < stack.len()
        invariant
            t <= stack@.len(),
            s == layers_of(*stack),
            words@ == given + stack_words(s.take(t as int)),
        decreases stack@.len() - t,
    {
        push_grid(words, &stack[t]);
        proof {
            assert(s.take(t + 1).drop_last() =~= s.take(t as int));
            assert(s.take(t + 1).last() == s[t as int]);
            assert(words@ =~= given + stack_words(s.take(t + 1)));
        }
        t += 1;
    }
    assert(s.take(t as int) =~= s);
}

/// Appends the cells of the stacks of `pile` to `words`.
fn push_pile(words: &mut Vec<u64>, pile: &Vec<Vec<Vec<Vec<u64>>>>)
    ensures
        final(words)@ == old(words)@ + pile_words(piles_of(*pile)),
{
    let ghost given = words@;
    let ghost p = piles_of(*pile);
    let mut t: usize = 0;
    assert(pile_words(p.take(0)) =~= Seq::empty());
    assert(given + pile_words(p.take(0)) =~= given);
    while t < pile.len()
        invariant
            t <= pile@.len(),
            p == piles_of(*pile),
            words@ == given + pile_words(p.take(t as int)),
        decreases pile@.len() - t,
    {
        push_stack(words, &pile[t]);
        proof {
            assert(p.take(t + 1).drop_last() =~= p.take(t as int));
            assert(p.take(t + 1).last() == p[t as int]);
            assert(words@ =~= given + pile_words(p.take(t + 1)));
        }
        t += 1;
    }
    assert(p.take(t as int) =~= p);
}

/// The words as bytes.
fn bytes_of(words: &Vec<u64>) -> (bytes: Vec<u8>)
    ensures
        bytes@ == words_bytes(words@),
{
    let mut bytes: Vec<u8> = Vec::new();
    let mut k: usize = 0;
    assert(words@.take(0) =~= Seq::empty());
    while k < words.len()
        invariant
            k <= words@.len(),
            bytes@ == words_bytes(words@.take(k as int)),
        decreases words@.len() - k,
    {
        let mut word = u64_to_le_bytes(words[k]);
        bytes.append(&mut word);
        proof {
            assert(words@.take(k + 1).drop_last() =~= words@.take(k as int));
            assert(words@.take(k + 1).last() == words@[k as int]);
        }
        k += 1;
    }
    assert(words@.take(k as int) =~= words@);
    bytes
}

impl DynamicProgram {
    /// The words that stand for the program: the time limit, the table, the
    /// field probabilities.
    pub open spec fn words(&self) -> Seq<u64> {
        seq![self.time_limit as u64] + stack_words(layers_of(self.table)) + grid_words(self.mask())
    }

    /// The bytes that stand for the program, before they are compressed.
    pub open spec fn image(&self) -> Seq<u8> {
        words_bytes(self.words())
    }

    /// The bytes that stand for the program, before they are compressed.
    pub fn encode(&self) -> (bytes: Vec<u8>)
        ensures
            bytes@ == self.image(),
    {
        let mut words: Vec<u64> = Vec::new();
        words.push(self.time_limit as u64);
        assert(words@ =~= seq![self.time_limit as u64]);
        push_stack(&mut words, &self.table);
        push_grid(&mut words, &self.field_probabilities);
        bytes_of(&words)
    }
}

impl MultiDynamicProgram {
    /// The words that stand for the program: the time limit, the number of
    /// variants, the table, the field probabilities.
    pub open spec fn words(&self) -> Seq<u64> {
        seq![self.time_limit as u64, self.kernels@.len() as u64] + pile_words(piles_of(self.table))
            + grid_words(self.mask())
    }

    /// The bytes that stand for the program, before they are compressed.
    pub open spec fn image(&self) -> Seq<u8> {
        words_bytes(self.words())
    }

    /// The bytes that stand for the program, before they are compressed.
    pub fn encode(&self) -> (bytes: Vec<u8>)
        ensures
            bytes@ == self.image(),
    {
        let mut words: Vec<u64> = Vec::new();
        words.push(self.time_limit as u64);
        words.push(self.kernels.len() as u64);
        assert(words@ =~= seq![self.time_limit as u64, self.kernels@.len() as u64]);
        push_pile(&mut words, &self.table);
        push_grid(&mut words, &self.field_probabilities);
        bytes_of(&words)
    }
}

/// Grids that reach beyond two to the power of thirty-one cells from the
/// origin have more cells than any machine can hold words.
proof fn lemma_large_limit(grids: int, limit: int)
    requires
        grids >= 1,
        limit >= 0x8000_0000,
    ensures
        grids * ((2 * limit + 1) * (2 * limit + 1)) >= 0x1_0000_0000_0000_0000,
{
    let w = 2 * limit + 1;
    assert(w * w >= 0x1_0000_0000 * 0x1_0000_0000) by (nonlinear_arith)
        requires
            w >= 0x1_0000_0000,
    ;
    assert(grids * (w * w) >= w * w) by (nonlinear_arith)
        requires
            grids >= 1,
            w * w >= 0,
    ;
}

/// Grids with at least one cell each have at least as many cells as there
/// are grids.
proof fn lemma_many_grids(grids: int, area: int)
    requires
        grids >= 0,
        area >= 1,
    ensures
        grids * area >= grids,
        grids * area >= area || grids == 0,
{
    assert(grids * area >= grids) by (nonlinear_arith)
        requires
            grids >= 0,
            area >= 1,
    ;
    assert(grids * area >= area || grids == 0) by (nonlinear_arith)
        requires
            grids >= 0,
            area >= 1,
    ;
}

/// The number of words of a program and the number of cells of one grid, if
/// `len` bytes hold that many words.
fn measure(len: usize, header: usize, grids: u128, time_limit: u64) -> (r: Option<(usize, usize)>)
    requires
        header <= 2,
        1 <= grids <= 0x1_0000_0000_0000_0000_0000_0000,
    ensures
        r is Some <==> 8 * word_count(header as int, grids as int, time_limit as int) <= len,
        r matches Some((count, area)) ==> {
            &&& count == word_count(header as int, grids as int, time_limit as int)
            &&& area == (2 * time_limit + 1) * (2 * time_limit + 1)
            &&& time_limit <= usize::MAX
            &&& addressable(time_limit as usize)
        },
{
    if time_limit >= 0x8000_0000 {
        proof {
            lemma_large_limit(grids as int, time_limit as int);
        }
        return None;
    }
    let width: u128 = 2 * (time_limit as u128) + 1;
    assert(width * width <= 0xffff_ffff * 0xffff_ffff) by (nonlinear_arith)
        requires
            0 <= width <= 0xffff_ffff,
    ;
    assert(width * width >= width) by (nonlinear_arith)
        requires
            width >= 1,
    ;
    let area: u128 = width * width;
    proof {
        lemma_many_grids(grids as int, area as int);
    }
    if grids > len as u128 {
        return None;
    }
    assert(grids * area <= 0xffff_ffff_ffff_ffff * (0xffff_ffff * 0xffff_ffff)) by (nonlinear_arith)
        requires
            0 <= grids <= 0xffff_ffff_ffff_ffff,
            0 <= area <= 0xffff_ffff * 0xffff_ffff,
    ;
    let total: u128 = header as u128 + grids * area;
    if total > (len / 8) as u128 {
        None
    } else {
        Some((total as usize, area as usize))
    }
}

/// The first `count` words of `bytes`.
fn words_of(bytes: &[u8], count: usize) -> (words: Vec<u64>)
    requires
        8 * count <= bytes@.len(),
    ensures
        words@.len() == count,
        forall|k: int| 0 <= k < count ==> #[trigger] words@[k] == word_at(bytes@, k),
        words_bytes(words@) == bytes@.subrange(0, 8 * count),
{
    let len = bytes.len();
    let mut words: Vec<u64> = Vec::new();
    let mut k: usize = 0;
    assert(bytes@.subrange(0, 0) =~= Seq::empty());
    while k < count
        invariant
            k <= count,
            len == bytes@.len(),
            8 * count <= bytes@.len(),
            words@.len() == k,
            forall|j: int| 0 <= j < k ==> #[trigger] words@[j] == word_at(bytes@, j),
            words_bytes(words@) == bytes@.subrange(0, 8 * k),
        decreases count - k,
    {
        let chunk = slice_subrange(bytes, 8 * k, 8 * k + 8);
        let word = u64_from_le_bytes(chunk);
        let ghost before = words@;
        words.push(word);
        proof {
            lemma_auto_spec_u64_to_from_le_bytes();
            assert(words@.drop_last() =~= before);
            assert(spec_u64_to_le_bytes(word) == chunk@);
            assert(bytes@.subrange(0, 8 * k) + chunk@ =~= bytes@.subrange(0, 8 * (k + 1)));
        }
        k += 1;
    }
    words
}

/// Block `t` of `n` blocks of `area` cells ends where block `t + 1` begins,
/// and no later than all of them end.
proof fn lemma_next_block(t: int, n: int, area: int)
    requires
        0 <= t < n,
        area >= 0,
    ensures
        t * area + area == (t + 1) * area,
        (t + 1) * area <= n * area,
        t * area >= 0,
{
    assert(t * area + area == (t + 1) * area) by (nonlinear_arith);
    assert((t + 1) * area <= n * area) by (nonlinear_arith)
        requires
            t + 1 <= n,
            area >= 0,
    ;
    assert(t * area >= 0) by (nonlinear_arith)
        requires
            t >= 0,
            area >= 0,
    ;
}

/// The square grid of `width` columns whose cells are the words from `start` on.
fn take_grid(words: &Vec<u64>, start: usize, width: usize) -> (grid: Vec<Vec<u64>>)
    requires
        start + width * width <= words@.len(),
    ensures
        is_square(rows(grid), width as nat),
        grid_words(rows(grid)) == words@.subrange(start as int, start + width * width),
{
    let len = words.len();
    let mut grid: Vec<Vec<u64>> = Vec::new();
    let mut x: usize = 0;
    let mut from: usize = start;
    assert(words@.subrange(start as int, start + 0) =~= Seq::empty());
    assert(rows(grid) =~= Seq::empty());
    assert(0 * width == 0) by (nonlinear_arith);
    while x < width
        invariant
            x <= width,
            len == words@.len(),
            from == start + x * width,
            start + width * width <= words@.len(),
            grid@.len() == x,
            forall|a: int| 0 <= a < x ==> (#[trigger] rows(grid)[a]).len() == width,
            grid_words(rows(grid)) == words@.subrange(start as int, start + x * width),
        decreases width - x,
    {
        proof {
            lemma_next_block(x as int, width as int, width as int);
        }
        let mut column: Vec<u64> = Vec::new();
        let mut y: usize = 0;
        while y < width
            invariant
                y <= width,
                len == words@.len(),
                from + width <= words@.len(),
                column@.len() == y,
                forall|b: int| 0 <= b < y ==> #[trigger] column@[b] == words@[from + b],
            decreases width - y,
        {
            column.push(words[from + y]);
            y += 1;
        }
        let ghost before = rows(grid);
        grid.push(column);
        proof {
            assert(rows(grid).drop_last() =~= before);
            assert(rows(grid).last() =~= words@.subrange(from as int, from + width));
            assert forall|a: int| 0 <= a < x + 1 implies (#[trigger] rows(grid)[a]).len()
                == width by {
                if a < x {
                    assert(rows(grid)[a] == before[a]);
                }
            }
            assert(words@.subrange(start as int, from as int) + words@.subrange(
                from as int,
                from + width,
            ) =~= words@.subrange(start as int, start + (x + 1) * width));
        }
        from = from + width;
        x += 1;
    }
    grid
}

/// The `count` square grids of `width` columns whose cells are the words from
/// `start` on.
fn take_stack(words: &Vec<u64>, start: usize, count: usize, width: usize) -> (stack: Vec<
    Vec<Vec<u64>>,
>)
    requires
        start + count * (width * width) <= words@.len(),
    ensures
        is_stack(layers_of(stack), count as nat, width as nat),
        stack_words(layers_of(stack)) == words@.subrange(
            start as int,
            start + count * (width * width),
        ),
{
    let ghost area = width * width;
    assert(area >= 0) by (nonlinear_arith)
        requires
            area == width * width,
    ;
    let len = words.len();
    let mut stack: Vec<Vec<Vec<u64>>> = Vec::new();
    let mut t: usize = 0;
    let mut from: usize = start;
    assert(words@.subrange(start as int, start + 0) =~= Seq::empty());
    assert(layers_of(stack) =~= Seq::empty());
    assert(0 * area == 0) by (nonlinear_arith);
    while t < count
        invariant
            t <= count,
            len == words@.len(),
            area == width * width,
            area >= 0,
            start + count * area <= words@.len(),
            from == start + t * area,
            stack@.len() == t,
            forall|s: int| 0 <= s < t ==> is_square(#[trigger] layers_of(stack)[s], width as nat),
            stack_words(layers_of(stack)) == words@.subrange(start as int, start + t * area),
        decreases count - t,
    {
        proof {
            lemma_next_block(t as int, count as int, area);
        }
        let grid = take_grid(words, from, width);
        let ghost before = layers_of(stack);
        stack.push(grid);
        proof {
            assert(layers_of(stack).drop_last() =~= before);
            assert(layers_of(stack).last() == rows(grid));
            assert(words@.subrange(start as int, from as int) + words@.subrange(
                from as int,
                from + area,
            ) =~= words@.subrange(start as int, start + (t + 1) * area));
            assert forall|s: int| 0 <= s < t + 1 implies is_square(
                #[trigger] layers_of(stack)[s],
                width as nat,
            ) by {
                if s < t {
                    assert(layers_of(stack)[s] == before[s]);
                }
            }
        }
        from = from + block_size(1, width);
        t += 1;
    }
    stack
}

/// The `count` stacks of `variants` square grids of `width` columns whose
/// cells are the words from `start` on.
fn take_pile(words: &Vec<u64>, start: usize, count: usize, variants: usize, width: usize) -> (pile:
    Vec<Vec<Vec<Vec<u64>>>>)
    requires
        start + count * (variants * (width * width)) <= words@.len(),
    ensures
        is_pile(piles_of(pile), count as nat, variants as nat, width as nat),
        pile_words(piles_of(pile)) == words@.subrange(
            start as int,
            start + count * (variants * (width * width)),
        ),
{
    let ghost block = variants * (width * width);
    assert(block >= 0) by (nonlinear_arith)
        requires
            block == variants * (width * width),
    ;
    let len = words.len();
    let mut pile: Vec<Vec<Vec<Vec<u64>>>> = Vec::new();
    let mut t: usize = 0;
    let mut from: usize = start;
    assert(words@.subrange(start as int, start + 0) =~= Seq::empty());
    assert(piles_of(pile) =~= Seq::empty());
    assert(0 * block == 0) by (nonlinear_arith);
    while t < count
        invariant
            t <= count,
            len == words@.len(),
            block == variants * (width * width),
            block >= 0,
            start + count * block <= words@.len(),
            from == start + t * block,
            pile@.len() == t,
            forall|s: int|
                0 <= s < t ==> is_stack(
                    #[trigger] piles_of(pile)[s],
                    variants as nat,
                    width as nat,
                ),
            pile_words(piles_of(pile)) == words@.subrange(start as int, start + t * block),
        decreases count - t,
    {
        proof {
            lemma_next_block(t as int, count as int, block);
        }
        let stack = take_stack(words, from, variants, width);
        let ghost before = piles_of(pile);
        pile.push(stack);
        proof {
            assert(piles_of(pile).drop_last() =~= before);
            assert(piles_of(pile).last() == layers_of(stack));
            assert(words@.subrange(start as int, from as int) + words@.subrange(
                from as int,
                from + block,
            ) =~= words@.subrange(start as int, start + (t + 1) * block));
            assert forall|s: int| 0 <= s < t + 1 implies is_stack(
                #[trigger] piles_of(pile)[s],
                variants as nat,
                width as nat,
            ) by {
                if s < t {
                    assert(piles_of(pile)[s] == before[s]);
                }
            }
        }
        from = from + block_size(variants, width);
        t += 1;
    }
    pile
}

/// The number of cells of `variants` square grids of `width` columns.
fn block_size(variants: usize, width: usize) -> (n: usize)
    requires
        variants * (width * width) <= usize::MAX,
    ensures
        n == variants * (width * width),
{
    if variants == 0 {
        assert(0 * (width * width) == 0) by (nonlinear_arith);
        0
    } else {
        assert(0 <= width * width <= variants * (width * width)) by (nonlinear_arith)
            requires
                variants >= 1,
                width >= 0,
        ;
        variants * (width * width)
    }
}

/// A kernel of three columns of zeros, which stands in for the kernels that
/// are not saved.
fn placeholder() -> (k: Kernel)
    ensures
        is_uniform(k.grid(), 3, 0),
        k.names() == ("ck"@, "Custom Kernel"@),
{
    Kernel { probabilities: uniform(3, 0), name: ("ck".to_owned(), "Custom Kernel".to_owned()) }
}

impl DynamicProgram {
    /// The number of words that a program takes from `bytes`, or why none
    /// can be read from them.
    pub open spec fn readable(bytes: Seq<u8>) -> Result<int, StoreError> {
        if bytes.len() < 8 {
            Err(StoreError::MissingTimeLimit)
        } else {
            let limit = word_at(bytes, 0) as int;
            let count = word_count(1, limit + 2, limit);
            if 8 * count > bytes.len() {
                Err(StoreError::Truncated)
            } else {
                Ok(count)
            }
        }
    }

    /// Whether `dp` is the program that `bytes` stand for: its image is what
    /// was read of them, and its kernel is a placeholder.
    pub open spec fn restores(bytes: Seq<u8>, dp: DynamicProgram) -> bool {
        &&& Self::readable(bytes) matches Ok(count) && dp.image() == bytes.subrange(0, 8 * count)
        &&& dp.wf()
        &&& dp.time_limit == word_at(bytes, 0)
        &&& is_uniform(dp.kernel.grid(), 3, 0)
    }

    /// The program that `bytes` stand for.  Bytes after its last word are
    /// not looked at.
    pub fn decode(bytes: &[u8]) -> (r: Result<DynamicProgram, StoreError>)
        ensures
            match Self::readable(bytes@) {
                Err(e) => r == Err::<DynamicProgram, _>(e),
                Ok(_) => r matches Ok(dp) && Self::restores(bytes@, dp),
            },
    {
        if bytes.len() < 8 {
            return Err(StoreError::MissingTimeLimit);
        }
        let header = u64_from_le_bytes(slice_subrange(bytes, 0, 8));
        let (count, area) = match measure(bytes.len(), 1, header as u128 + 2, header) {
            Some(sizes) => sizes,
            None => {
                return Err(StoreError::Truncated);
            },
        };
        let time_limit = header as usize;
        let width = 2 * time_limit + 1;
        let ghost l = time_limit as int;
        assert((l + 2) * (width * width) == (l + 1) * (width * width) + width * width)
            by (nonlinear_arith);
        assert((l + 1) * (width * width) >= 0) by (nonlinear_arith)
            requires
                l >= 0,
                width >= 0,
        ;
        let words = words_of(bytes, count);
        let table = take_stack(&words, 1, time_limit + 1, width);
        let mask_start = 1 + block_size(time_limit + 1, width);
        let field_probabilities = take_grid(&words, mask_start, width);
        let dp = DynamicProgram { table, time_limit, kernel: placeholder(), field_probabilities };
        proof {
            assert(words@ =~= seq![header] + words@.subrange(1, mask_start as int) + words@.subrange(
                mask_start as int,
                count as int,
            ));
            assert forall|t: int| 0 <= t <= time_limit implies is_square(
                #[trigger] dp.layer(t),
                (2 * time_limit + 1) as nat,
            ) by {
                assert(dp.layer(t) == layers_of(dp.table)[t]);
            }
        }
        Ok(dp)
    }
}

impl MultiDynamicProgram {
    /// The number of words that a program takes from `bytes`, or why none
    /// can be read from them.
    pub open spec fn readable(bytes: Seq<u8>) -> Result<int, StoreError> {
        if bytes.len() < 8 {
            Err(StoreError::MissingTimeLimit)
        } else if bytes.len() < 16 {
            Err(StoreError::MissingVariants)
        } else {
            let limit = word_at(bytes, 0) as int;
            let variants = word_at(bytes, 1) as int;
            let count = word_count(2, (limit + 1) * variants + 1, limit);
            if 8 * count > bytes.len() {
                Err(StoreError::Truncated)
            } else {
                Ok(count)
            }
        }
    }

    /// Whether `dp` is the program that `bytes` stand for: its image is what
    /// was read of them, and its kernels are placeholders.
    pub open spec fn restores(bytes: Seq<u8>, dp: MultiDynamicProgram) -> bool {
        &&& Self::readable(bytes) matches Ok(count) && dp.image() == bytes.subrange(0, 8 * count)
        &&& dp.wf()
        &&& dp.time_limit == word_at(bytes, 0)
        &&& dp.kernels@.len() == word_at(bytes, 1)
        &&& forall|v: int|
            0 <= v < dp.kernels@.len() ==> is_uniform((#[trigger] dp.kernels@[v]).grid(), 3, 0)
    }

    /// The program that `bytes` stand for.  Bytes after its last word are
    /// not looked at.
    pub fn decode(bytes: &[u8]) -> (r: Result<MultiDynamicProgram, StoreError>)
        ensures
            match Self::readable(bytes@) {
                Err(e) => r == Err::<MultiDynamicProgram, _>(e),
                Ok(_) => r matches Ok(dp) && Self::restores(bytes@, dp),
            },
    {
        if bytes.len() < 8 {
            return Err(StoreError::MissingTimeLimit);
        }
        if bytes.len() < 16 {
            return Err(StoreError::MissingVariants);
        }
        let header = u64_from_le_bytes(slice_subrange(bytes, 0, 8));
        let quantity = u64_from_le_bytes(slice_subrange(bytes, 8, 16));
        let ghost l = header as int;
        let ghost q = quantity as int;
        assert((l + 1) * q >= 0 && (l + 1) * q >= q) by (nonlinear_arith)
            requires
                l >= 0,
                q >= 0,
        ;
        if header >= 0x8000_0000 {
            proof {
                lemma_large_limit((l + 1) * q + 1, l);
            }
            return Err(StoreError::Truncated);
        }
        assert((l + 1) * q <= 0x8000_0000 * 0xffff_ffff_ffff_ffff) by (nonlinear_arith)
            requires
                0 <= l + 1 <= 0x8000_0000,
                0 <= q <= 0xffff_ffff_ffff_ffff,
        ;
        let grids: u128 = (header as u128 + 1) * (quantity as u128) + 1;
        let (count, area) = match measure(bytes.len(), 2, grids, header) {
            Some(sizes) => sizes,
            None => {
                return Err(StoreError::Truncated);
            },
        };
        let time_limit = header as usize;
        let width = 2 * time_limit + 1;
        assert(((l + 1) * q + 1) * (width * width) == (l + 1) * (q * (width * width)) + width
            * width) by (nonlinear_arith);
        assert((l + 1) * (q * (width * width)) >= 0 && q * (width * width) >= q && width * width
            >= 1) by (nonlinear_arith)
            requires
                l >= 0,
                q >= 0,
                width >= 1,
        ;
        assert((l + 1) * (q * (width * width)) >= q * (width * width)) by (nonlinear_arith)
            requires
                l >= 0,
                q * (width * width) >= 0,
        ;
        let variants = quantity as usize;
        let words = words_of(bytes, count);
        let table = take_pile(&words, 2, time_limit + 1, variants, width);
        let ghost mask_at = 2 + (l + 1) * (q * (width * width));
        let mask_start = count - block_size(1, width);
        assert(mask_start == mask_at);
        let field_probabilities = take_grid(&words, mask_start, width);
        let mut kernels: Vec<Kernel> = Vec::new();
        let mut v: usize = 0;
        while v < variants
            invariant
                v <= variants,
                kernels@.len() == v,
                forall|u: int| 0 <= u < v ==> is_uniform((#[trigger] kernels@[u]).grid(), 3, 0),
            decreases variants - v,
        {
            kernels.push(placeholder());
            v += 1;
        }
        let dp = MultiDynamicProgram { table, time_limit, kernels, field_probabilities };
        proof {
            assert(words@ =~= seq![header, quantity] + words@.subrange(2, mask_start as int)
                + words@.subrange(mask_start as int, count as int));
            assert forall|t: int| 0 <= t <= time_limit implies (#[trigger] dp.table@[t])@.len()
                == dp.kernels@.len() by {
                assert(is_stack(piles_of(dp.table)[t], variants as nat, width as nat));
            }
            assert forall|t: int, u: int|
                0 <= t <= time_limit && 0 <= u < dp.kernels@.len() implies is_square(
                #[trigger] dp.layer(t, u),
                (2 * time_limit + 1) as nat,
            ) by {
                assert(is_stack(piles_of(dp.table)[t], variants as nat, width as nat));
                assert(dp.layer(t, u) == piles_of(dp.table)[t][u]);
            }
        }
        Ok(dp)
    }
}

/// The image of a well-formed program can be read, and all of it is read.
pub proof fn lemma_image_readable(dp: DynamicProgram)
    requires
        dp.wf(),
    ensures
        DynamicProgram::readable(dp.image()) == Ok::<int, StoreError>(dp.words().len() as int),
        dp.image().len() == 8 * dp.words().len(),
        word_at(dp.image(), 0) == dp.time_limit,
{
    let l = dp.limit();
    let w = (2 * l + 1) as nat;
    let stack = layers_of(dp.table);
    assert(is_stack(stack, (l + 1) as nat, w)) by {
        assert forall|t: int| 0 <= t < l + 1 implies is_square(#[trigger] stack[t], w) by {
            assert(stack[t] == dp.layer(t));
        }
    }
    lemma_stack_words_len(stack, (l + 1) as nat, w);
    lemma_grid_words_len(dp.mask(), w);
    lemma_words_bytes_len(dp.words());
    lemma_word_at(dp.words(), 0);
    assert((l + 2) * (w * w) == (l + 1) * (w * w) + w * w) by (nonlinear_arith);
}

/// Saving and restoring keeps the time limit, the table and the field
/// probabilities: a program restored from the image of `dp` agrees with `dp`
/// in all three.
pub proof fn lemma_round_trip(dp: DynamicProgram, restored: DynamicProgram)
    requires
        dp.wf(),
        DynamicProgram::restores(dp.image(), restored),
    ensures
        restored.time_limit == dp.time_limit,
        layers_of(restored.table) == layers_of(dp.table),
        restored.mask() == dp.mask(),
{
    lemma_image_readable(dp);
    let l = dp.limit();
    let w = (2 * l + 1) as nat;
    assert(dp.image().subrange(0, dp.image().len() as int) =~= dp.image());
    lemma_words_bytes_injective(restored.words(), dp.words());
    let a = layers_of(restored.table);
    let b = layers_of(dp.table);
    assert(is_stack(a, (l + 1) as nat, w)) by {
        assert forall|t: int| 0 <= t < l + 1 implies is_square(#[trigger] a[t], w) by {
            assert(a[t] == restored.layer(t));
        }
    }
    assert(is_stack(b, (l + 1) as nat, w)) by {
        assert forall|t: int| 0 <= t < l + 1 implies is_square(#[trigger] b[t], w) by {
            assert(b[t] == dp.layer(t));
        }
    }
    lemma_grid_words_len(restored.mask(), w);
    lemma_grid_words_len(dp.mask(), w);
    lemma_split(
        seq![restored.time_limit as u64] + stack_words(a),
        grid_words(restored.mask()),
        seq![dp.time_limit as u64] + stack_words(b),
        grid_words(dp.mask()),
    );
    lemma_stack_words_len(a, (l + 1) as nat, w);
    lemma_stack_words_len(b, (l + 1) as nat, w);
    lemma_split(
        seq![restored.time_limit as u64],
        stack_words(a),
        seq![dp.time_limit as u64],
        stack_words(b),
    );
    lemma_stack_words_injective(a, b, (l + 1) as nat, w);
    lemma_grid_words_injective(restored.mask(), dp.mask(), w);
}

/// The image of a well-formed program with several tables can be read, and
/// all of it is read.
pub proof fn lemma_multi_image_readable(dp: MultiDynamicProgram)
    requires
        dp.wf(),
    ensures
        MultiDynamicProgram::readable(dp.image()) == Ok::<int, StoreError>(
            dp.words().len() as int,
        ),
        dp.image().len() == 8 * dp.words().len(),
        word_at(dp.image(), 0) == dp.time_limit,
        word_at(dp.image(), 1) == dp.kernels@.len(),
{
    let l = dp.limit();
    let q = dp.quantity();
    let w = (2 * l + 1) as nat;
    let pile = piles_of(dp.table);
    assert(is_pile(pile, (l + 1) as nat, q as nat, w)) by {
        assert forall|t: int| 0 <= t < l + 1 implies is_stack(#[trigger] pile[t], q as nat, w) by {
            assert(dp.table@[t]@.len() == q);
            assert forall|v: int| 0 <= v < q implies is_square(#[trigger] pile[t][v], w) by {
                assert(pile[t][v] == dp.layer(t, v));
            }
        }
    }
    lemma_pile_words_len(pile, (l + 1) as nat, q as nat, w);
    lemma_grid_words_len(dp.mask(), w);
    lemma_words_bytes_len(dp.words());
    lemma_word_at(dp.words(), 0);
    lemma_word_at(dp.words(), 1);
    assert(((l + 1) * q + 1) * (w * w) == (l + 1) * (q * (w * w)) + w * w) by (nonlinear_arith);
}

/// Saving and restoring keeps the time limit, the number of variants, the
/// table and the field probabilities of a program with several tables.
pub proof fn lemma_multi_round_trip(dp: MultiDynamicProgram, restored: MultiDynamicProgram)
    requires
        dp.wf(),
        MultiDynamicProgram::restores(dp.image(), restored),
    ensures
        restored.time_limit == dp.time_limit,
        restored.kernels@.len() == dp.kernels@.len(),
        piles_of(restored.table) == piles_of(dp.table),
        restored.mask() == dp.mask(),
{
    lemma_multi_image_readable(dp);
    let l = dp.limit();
    let q = dp.quantity();
    let w = (2 * l + 1) as nat;
    assert(dp.image().subrange(0, dp.image().len() as int) =~= dp.image());
    lemma_words_bytes_injective(restored.words(), dp.words());
    let a = piles_of(restored.table);
    let b = piles_of(dp.table);
    assert(is_pile(a, (l + 1) as nat, q as nat, w)) by {
        assert forall|t: int| 0 <= t < l + 1 implies is_stack(#[trigger] a[t], q as nat, w) by {
            assert(restored.table@[t]@.len() == q);
            assert forall|v: int| 0 <= v < q implies is_square(#[trigger] a[t][v], w) by {
                assert(a[t][v] == restored.layer(t, v));
            }
        }
    }
    assert(is_pile(b, (l + 1) as nat, q as nat, w)) by {
        assert forall|t: int| 0 <= t < l + 1 implies is_stack(#[trigger] b[t], q as nat, w) by {
            assert(dp.table@[t]@.len() == q);
            assert forall|v: int| 0 <= v < q implies is_square(#[trigger] b[t][v], w) by {
                assert(b[t][v] == dp.layer(t, v));
            }
        }
    }
    lemma_grid_words_len(restored.mask(), w);
    lemma_grid_words_len(dp.mask(), w);
    lemma_split(
        seq![restored.time_limit as u64, restored.kernels@.len() as u64] + pile_words(a),
        grid_words(restored.mask()),
        seq![dp.time_limit as u64, dp.kernels@.len() as u64] + pile_words(b),
        grid_words(dp.mask()),
    );
    lemma_pile_words_len(a, (l + 1) as nat, q as nat, w);
    lemma_pile_words_len(b, (l + 1) as nat, q as nat, w);
    lemma_split(
        seq![restored.time_limit as u64, restored.kernels@.len() as u64],
        pile_words(a),
        seq![dp.time_limit as u64, dp.kernels@.len() as u64],
        pile_words(b),
    );
    lemma_pile_words_injective(a, b, (l + 1) as nat, q as nat, w);
    lemma_grid_words_injective(restored.mask(), dp.mask(), w);
}

/// The compression level of saved programs.
pub const COMPRESSION_LEVEL: i32 = 9;

impl DynamicProgram {
    /// The program as one compressed frame: what the compressor makes of the
    /// image of the program at `COMPRESSION_LEVEL`.
    ///
    /// It fails where the compressor does, and only there.  A frame that is
    /// returned decompresses to the image of the program.
    pub fn save(&self) -> (r: Result<Vec<u8>, StoreError>)
        ensures
            match zstd_encoded(self.image(), COMPRESSION_LEVEL) {
                Some(encoded) => r matches Ok(frame) && frame@ == encoded,
                None => r == Err::<Vec<u8>, _>(StoreError::Compression),
            },
            r matches Ok(frame) ==> zstd_decoded(frame@) == Some(self.image()),
    {
        let bytes = self.encode();
        match compress(bytes.as_slice(), COMPRESSION_LEVEL) {
            Ok(frame) => Ok(frame),
            Err(_) => Err(StoreError::Compression),
        }
    }

    /// What `load` returns for a frame that decompresses to `decoded`, or
    /// does not decompress at all.
    pub open spec fn loaded(
        decoded: Option<Seq<u8>>,
        r: Result<DynamicProgramPool, StoreError>,
    ) -> bool {
        match decoded {
            None => r == Err::<DynamicProgramPool, _>(StoreError::Decompression),
            Some(bytes) => match Self::readable(bytes) {
                Err(e) => r == Err::<DynamicProgramPool, _>(e),
                Ok(_) => r matches Ok(DynamicProgramPool::Single(dp)) && Self::restores(bytes, dp),
            },
        }
    }

    /// The program that was saved as `frame`.
    pub fn load(frame: &[u8]) -> (r: Result<DynamicProgramPool, StoreError>)
        ensures
            Self::loaded(zstd_decoded(frame@), r),
    {
        let bytes = match decompress(frame) {
            Ok(bytes) => bytes,
            Err(_) => {
                return Err(StoreError::Decompression);
            },
        };
        match Self::decode(bytes.as_slice()) {
            Ok(dp) => Ok(DynamicProgramPool::Single(dp)),
            Err(e) => Err(e),
        }
    }
}

impl MultiDynamicProgram {
    /// The program as one compressed frame: what the compressor makes of the
    /// image of the program at `COMPRESSION_LEVEL`.
    ///
    /// It fails where the compressor does, and only there.  A frame that is
    /// returned decompresses to the image of the program.
    pub fn save(&self) -> (r: Result<Vec<u8>, StoreError>)
        ensures
            match zstd_encoded(self.image(), COMPRESSION_LEVEL) {
                Some(encoded) => r matches Ok(frame) && frame@ == encoded,
                None => r == Err::<Vec<u8>, _>(StoreError::Compression),
            },
            r matches Ok(frame) ==> zstd_decoded(frame@) == Some(self.image()),
    {
        let bytes = self.encode();
        match compress(bytes.as_slice(), COMPRESSION_LEVEL) {
            Ok(frame) => Ok(frame),
            Err(_) => Err(StoreError::Compression),
        }
    }

    /// What `load` returns for a frame that decompresses to `decoded`, or
    /// does not decompress at all.
    pub open spec fn loaded(
        decoded: Option<Seq<u8>>,
        r: Result<DynamicProgramPool, StoreError>,
    ) -> bool {
        match decoded {
            None => r == Err::<DynamicProgramPool, _>(StoreError::Decompression),
            Some(bytes) => match Self::readable(bytes) {
                Err(e) => r == Err::<DynamicProgramPool, _>(e),
                Ok(_) => r matches Ok(DynamicProgramPool::Multiple(dp)) && Self::restores(bytes, dp),
            },
        }
    }

    /// The program that was saved as `frame`.
    pub fn load(frame: &[u8]) -> (r: Result<DynamicProgramPool, StoreError>)
        ensures
            Self::loaded(zstd_decoded(frame@), r),
    {
        let bytes = match decompress(frame) {
            Ok(bytes) => bytes,
            Err(_) => {
                return Err(StoreError::Decompression);
            },
        };
        match Self::decode(bytes.as_slice()) {
            Ok(dp) => Ok(DynamicProgramPool::Multiple(dp)),
            Err(e) => Err(e),
        }
    }
}

impl DynamicProgramPool {
    /// The bytes that stand for the program, before they are compressed.
    pub open spec fn image(&self) -> Seq<u8> {
        match self {
            DynamicProgramPool::Single(dp) => dp.image(),
            DynamicProgramPool::Multiple(dp) => dp.image(),
        }
    }

    /// The program as one compressed frame: what the compressor makes of the
    /// image of the program at `COMPRESSION_LEVEL`.
    pub fn save(&self) -> (r: Result<Vec<u8>, StoreError>)
        ensures
            match zstd_encoded(self.image(), COMPRESSION_LEVEL) {
                Some(encoded) => r matches Ok(frame) && frame@ == encoded,
                None => r == Err::<Vec<u8>, _>(StoreError::Compression),
            },
            r matches Ok(frame) ==> zstd_decoded(frame@) == Some(self.image()),
    {
        match self {
            DynamicProgramPool::Single(dp) => dp.save(),
            DynamicProgramPool::Multiple(dp) => dp.save(),
        }
    }
}

} // verus!
