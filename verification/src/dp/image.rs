//! The layout of a saved program.
//!
//! A program is laid out as a sequence of words, and every word as eight
//! bytes.  The words of a grid are its cells column after column, those of a
//! stack of grids the words of its grids one after the other, and those of a
//! pile of stacks likewise.  Grids, stacks and piles of one shape that are
//! laid out as the same bytes are the same.

use crate::grid::is_square;
use vstd::bytes::{
    lemma_auto_spec_u64_to_from_le_bytes, spec_u64_from_le_bytes, spec_u64_to_le_bytes,
};
use vstd::prelude::*;

verus! {

/// The words `ws`, each as eight bytes, the least significant first.
pub open spec fn words_bytes(ws: Seq<u64>) -> Seq<u8>
    decreases ws.len(),
{
    if ws.len() == 0 {
        Seq::empty()
    } else {
        words_bytes(ws.drop_last()) + spec_u64_to_le_bytes(ws.last())
    }
}

/// The cells of `g`, column after column.
pub open spec fn grid_words(g: Seq<Seq<u64>>) -> Seq<u64>
    decreases g.len(),
{
    if g.len() == 0 {
        Seq::empty()
    } else {
        grid_words(g.drop_last()) + g.last()
    }
}

/// The cells of the grids of `s`, grid after grid.
pub open spec fn stack_words(s: Seq<Seq<Seq<u64>>>) -> Seq<u64>
    decreases s.len(),
{
    if s.len() == 0 {
        Seq::empty()
    } else {
        stack_words(s.drop_last()) + grid_words(s.last())
    }
}

/// The cells of the stacks of `p`, stack after stack.
pub open spec fn pile_words(p: Seq<Seq<Seq<Seq<u64>>>>) -> Seq<u64>
    decreases p.len(),
{
    if p.len() == 0 {
        Seq::empty()
    } else {
        pile_words(p.drop_last()) + stack_words(p.last())
    }
}

/// The word that starts at byte `8 * k` of `bytes`.
pub open spec fn word_at(bytes: Seq<u8>, k: int) -> u64 {
    spec_u64_from_le_bytes(bytes.subrange(8 * k, 8 * k + 8))
}

/// The number of words of a program with `header` words before the table
/// and `grids` grids that reach from `-limit` to `limit`.
pub open spec fn word_count(header: int, grids: int, limit: int) -> int {
    header + grids * ((2 * limit + 1) * (2 * limit + 1))
}

/// Whether `stack` holds `count` square grids of `width` columns.
pub open spec fn is_stack(stack: Seq<Seq<Seq<u64>>>, count: nat, width: nat) -> bool {
    &&& stack.len() == count
    &&& forall|t: int| 0 <= t < count ==> is_square(#[trigger] stack[t], width)
}

/// Whether `pile` holds `count` stacks of `variants` square grids of `width`
/// columns.
pub open spec fn is_pile(
    pile: Seq<Seq<Seq<Seq<u64>>>>,
    count: nat,
    variants: nat,
    width: nat,
) -> bool {
    &&& pile.len() == count
    &&& forall|t: int| 0 <= t < count ==> is_stack(#[trigger] pile[t], variants, width)
}

/// Two sequences that agree as a whole and in the length of their first
/// parts agree in both parts.
pub proof fn lemma_split(a1: Seq<u64>, b1: Seq<u64>, a2: Seq<u64>, b2: Seq<u64>)
    requires
        a1 + b1 == a2 + b2,
        b1.len() == b2.len(),
    ensures
        a1 == a2,
        b1 == b2,
{
    let whole = a1 + b1;
    assert(whole.len() == a1.len() + b1.len());
    assert((a2 + b2).len() == a2.len() + b2.len());
    assert(a1 =~= whole.subrange(0, a1.len() as int));
    assert(a2 =~= (a2 + b2).subrange(0, a2.len() as int));
    assert(b1 =~= whole.subrange(a1.len() as int, whole.len() as int));
    assert(b2 =~= (a2 + b2).subrange(a2.len() as int, whole.len() as int));
}

/// Every word takes eight bytes.
pub proof fn lemma_words_bytes_len(ws: Seq<u64>)
    ensures
        words_bytes(ws).len() == 8 * ws.len(),
    decreases ws.len(),
{
    lemma_auto_spec_u64_to_from_le_bytes();
    if ws.len() > 0 {
        lemma_words_bytes_len(ws.drop_last());
    }
}

/// The `k`-th word of the bytes of `ws` is the `k`-th of `ws`.
pub proof fn lemma_word_at(ws: Seq<u64>, k: int)
    requires
        0 <= k < ws.len(),
    ensures
        word_at(words_bytes(ws), k) == ws[k],
    decreases ws.len(),
{
    lemma_auto_spec_u64_to_from_le_bytes();
    let front = words_bytes(ws.drop_last());
    let back = spec_u64_to_le_bytes(ws.last());
    lemma_words_bytes_len(ws.drop_last());
    if k == ws.len() - 1 {
        assert(words_bytes(ws).subrange(8 * k, 8 * k + 8) =~= back);
    } else {
        lemma_word_at(ws.drop_last(), k);
        assert(words_bytes(ws).subrange(8 * k, 8 * k + 8) =~= front.subrange(8 * k, 8 * k + 8));
    }
}

/// Words with the same bytes are the same words.
pub proof fn lemma_words_bytes_injective(a: Seq<u64>, b: Seq<u64>)
    requires
        words_bytes(a) == words_bytes(b),
    ensures
        a == b,
{
    lemma_words_bytes_len(a);
    lemma_words_bytes_len(b);
    assert forall|k: int| 0 <= k < a.len() implies a[k] == b[k] by {
        lemma_word_at(a, k);
        lemma_word_at(b, k);
    }
    assert(a =~= b);
}

/// A grid of `n` columns of `w` cells has `n * w` cells.
pub proof fn lemma_grid_words_len(g: Seq<Seq<u64>>, w: nat)
    requires
        forall|i: int| 0 <= i < g.len() ==> (#[trigger] g[i]).len() == w,
    ensures
        grid_words(g).len() == g.len() * w,
    decreases g.len(),
{
    if g.len() > 0 {
        lemma_grid_words_len(g.drop_last(), w);
        assert((g.len() - 1) * w + w == g.len() * w) by (nonlinear_arith);
    } else {
        assert(0 * w == 0) by (nonlinear_arith);
    }
}

/// Grids of the same shape with the same cells in the same order are the
/// same grid.
pub proof fn lemma_grid_words_injective(a: Seq<Seq<u64>>, b: Seq<Seq<u64>>, w: nat)
    requires
        a.len() == b.len(),
        forall|i: int| 0 <= i < a.len() ==> (#[trigger] a[i]).len() == w,
        forall|i: int| 0 <= i < b.len() ==> (#[trigger] b[i]).len() == w,
        grid_words(a) == grid_words(b),
    ensures
        a == b,
    decreases a.len(),
{
    if a.len() > 0 {
        lemma_split(grid_words(a.drop_last()), a.last(), grid_words(b.drop_last()), b.last());
        lemma_grid_words_injective(a.drop_last(), b.drop_last(), w);
        assert(a =~= a.drop_last().push(a.last()));
        assert(b =~= b.drop_last().push(b.last()));
    } else {
        assert(a =~= b);
    }
}

/// A stack of `count` square grids of `w` columns has `count * (w * w)` cells.
pub proof fn lemma_stack_words_len(s: Seq<Seq<Seq<u64>>>, count: nat, w: nat)
    requires
        is_stack(s, count, w),
    ensures
        stack_words(s).len() == count * (w * w),
    decreases s.len(),
{
    if s.len() > 0 {
        assert(is_stack(s.drop_last(), (count - 1) as nat, w)) by {
            assert forall|t: int| 0 <= t < count - 1 implies is_square(
                #[trigger] s.drop_last()[t],
                w,
            ) by {
                assert(s.drop_last()[t] == s[t]);
            }
        }
        lemma_stack_words_len(s.drop_last(), (count - 1) as nat, w);
        assert(is_square(s[count - 1], w));
        lemma_grid_words_len(s.last(), w);
        assert((count - 1) * (w * w) + w * w == count * (w * w)) by (nonlinear_arith);
    } else {
        assert(0 * (w * w) == 0) by (nonlinear_arith);
    }
}

/// Stacks of the same shape with the same cells in the same order are the
/// same stack.
pub proof fn lemma_stack_words_injective(
    a: Seq<Seq<Seq<u64>>>,
    b: Seq<Seq<Seq<u64>>>,
    count: nat,
    w: nat,
)
    requires
        is_stack(a, count, w),
        is_stack(b, count, w),
        stack_words(a) == stack_words(b),
    ensures
        a == b,
    decreases a.len(),
{
    if a.len() > 0 {
        assert(is_square(a[count - 1], w));
        assert(is_square(b[count - 1], w));
        lemma_grid_words_len(a.last(), w);
        lemma_grid_words_len(b.last(), w);
        lemma_split(
            stack_words(a.drop_last()),
            grid_words(a.last()),
            stack_words(b.drop_last()),
            grid_words(b.last()),
        );
        lemma_grid_words_injective(a.last(), b.last(), w);
        assert(is_stack(a.drop_last(), (count - 1) as nat, w)) by {
            assert forall|t: int| 0 <= t < count - 1 implies is_square(
                #[trigger] a.drop_last()[t],
                w,
            ) by {
                assert(a.drop_last()[t] == a[t]);
            }
        }
        assert(is_stack(b.drop_last(), (count - 1) as nat, w)) by {
            assert forall|t: int| 0 <= t < count - 1 implies is_square(
                #[trigger] b.drop_last()[t],
                w,
            ) by {
                assert(b.drop_last()[t] == b[t]);
            }
        }
        lemma_stack_words_injective(a.drop_last(), b.drop_last(), (count - 1) as nat, w);
        assert(a =~= a.drop_last().push(a.last()));
        assert(b =~= b.drop_last().push(b.last()));
    } else {
        assert(a =~= b);
    }
}

/// A pile of `count` stacks of `variants` square grids of `w` columns has
/// `count * (variants * (w * w))` cells.
pub proof fn lemma_pile_words_len(p: Seq<Seq<Seq<Seq<u64>>>>, count: nat, variants: nat, w: nat)
    requires
        is_pile(p, count, variants, w),
    ensures
        pile_words(p).len() == count * (variants * (w * w)),
    decreases p.len(),
{
    if p.len() > 0 {
        assert(is_pile(p.drop_last(), (count - 1) as nat, variants, w)) by {
            assert forall|t: int| 0 <= t < count - 1 implies is_stack(
                #[trigger] p.drop_last()[t],
                variants,
                w,
            ) by {
                assert(p.drop_last()[t] == p[t]);
            }
        }
        lemma_pile_words_len(p.drop_last(), (count - 1) as nat, variants, w);
        assert(is_stack(p[count - 1], variants, w));
        lemma_stack_words_len(p.last(), variants, w);
        assert((count - 1) * (variants * (w * w)) + variants * (w * w) == count * (variants * (w
            * w))) by (nonlinear_arith);
    } else {
        assert(0 * (variants * (w * w)) == 0) by (nonlinear_arith);
    }
}

/// Piles of the same shape with the same cells in the same order are the
/// same pile.
pub proof fn lemma_pile_words_injective(
    a: Seq<Seq<Seq<Seq<u64>>>>,
    b: Seq<Seq<Seq<Seq<u64>>>>,
    count: nat,
    variants: nat,
    w: nat,
)
    requires
        is_pile(a, count, variants, w),
        is_pile(b, count, variants, w),
        pile_words(a) == pile_words(b),
    ensures
        a == b,
    decreases a.len(),
{
    if a.len() > 0 {
        assert(is_stack(a[count - 1], variants, w));
        assert(is_stack(b[count - 1], variants, w));
        lemma_stack_words_len(a.last(), variants, w);
        lemma_stack_words_len(b.last(), variants, w);
        lemma_split(
            pile_words(a.drop_last()),
            stack_words(a.last()),
            pile_words(b.drop_last()),
            stack_words(b.last()),
        );
        lemma_stack_words_injective(a.last(), b.last(), variants, w);
        assert(is_pile(a.drop_last(), (count - 1) as nat, variants, w)) by {
            assert forall|t: int| 0 <= t < count - 1 implies is_stack(
                #[trigger] a.drop_last()[t],
                variants,
                w,
            ) by {
                assert(a.drop_last()[t] == a[t]);
            }
        }
        assert(is_pile(b.drop_last(), (count - 1) as nat, variants, w)) by {
            assert forall|t: int| 0 <= t < count - 1 implies is_stack(
                #[trigger] b.drop_last()[t],
                variants,
                w,
            ) by {
                assert(b.drop_last()[t] == b[t]);
            }
        }
        lemma_pile_words_injective(a.drop_last(), b.drop_last(), (count - 1) as nat, variants, w);
        assert(a =~= a.drop_last().push(a.last()));
        assert(b =~= b.drop_last().push(b.last()));
    } else {
        assert(a =~= b);
    }
}

} // verus!
