//! Square grids of weights, and what turning one by a right angle does.

use vstd::prelude::*;

verus! {

/// The rows of `v` as mathematical sequences.
pub open spec fn rows(v: Vec<Vec<u64>>) -> Seq<Seq<u64>> {
    Seq::new(v@.len(), |i: int| v@[i]@)
}

/// Whether `m` has `n` rows of `n` cells each.
pub open spec fn is_square(m: Seq<Seq<u64>>, n: nat) -> bool {
    &&& m.len() == n
    &&& forall|i: int| 0 <= i < n ==> (#[trigger] m[i]).len() == n
}

/// Whether `m` has `n` rows of `n` cells, all of them `value`.
pub open spec fn is_uniform(m: Seq<Seq<u64>>, n: nat, value: u64) -> bool {
    &&& is_square(m, n)
    &&& forall|i: int, j: int| 0 <= i < n && 0 <= j < n ==> (#[trigger] m[i][j]) == value
}

/// `m` turned clockwise by a right angle: the cell that ends at `(x, y)` is
/// the one that was at `(y, n - 1 - x)`.
pub open spec fn quarter_turn(m: Seq<Seq<u64>>) -> Seq<Seq<u64>> {
    Seq::new(m.len(), |x: int| Seq::new(m.len(), |y: int| m[y][m.len() - 1 - x]))
}

/// `m` turned clockwise by `k` right angles.
pub open spec fn turned(m: Seq<Seq<u64>>, k: nat) -> Seq<Seq<u64>>
    decreases k,
{
    if k == 0 {
        m
    } else {
        quarter_turn(turned(m, (k - 1) as nat))
    }
}

/// Turning keeps a grid square.
pub proof fn lemma_turned_square(m: Seq<Seq<u64>>, n: nat, k: nat)
    requires
        is_square(m, n),
    ensures
        is_square(turned(m, k), n),
    decreases k,
{
    if k > 0 {
        lemma_turned_square(m, n, (k - 1) as nat);
    }
}

/// Turning first by `a` and then by `b` right angles is turning by `a + b`.
pub proof fn lemma_turned_twice(m: Seq<Seq<u64>>, a: nat, b: nat)
    ensures
        turned(turned(m, a), b) == turned(m, a + b),
    decreases b,
{
    if b > 0 {
        lemma_turned_twice(m, a, (b - 1) as nat);
    }
}

/// Four right angles bring every square grid back to where it was.
pub proof fn lemma_four_quarter_turns(m: Seq<Seq<u64>>, n: nat)
    requires
        is_square(m, n),
    ensures
        turned(m, 4) == m,
{
    let m1 = quarter_turn(m);
    let m2 = quarter_turn(m1);
    let m3 = quarter_turn(m2);
    let m4 = quarter_turn(m3);
    reveal_with_fuel(turned, 5);
    assert(turned(m, 4) == m4);
    assert(m4.len() == n);
    assert forall|x: int| 0 <= x < n implies #[trigger] m4[x] == m[x] by {
        assert(m4[x].len() == n);
        assert forall|y: int| 0 <= y < n implies m4[x][y] == m[x][y] by {
            assert(m4[x][y] == m3[y][n - 1 - x]);
            assert(m3[y][n - 1 - x] == m2[n - 1 - x][n - 1 - y]);
            assert(m2[n - 1 - x][n - 1 - y] == m1[n - 1 - y][x]);
            assert(m1[n - 1 - y][x] == m[x][y]);
        }
        assert(m4[x] =~= m[x]);
    }
    assert(m4 =~= m);
}

/// Only the number of right angles modulo four matters.
pub proof fn lemma_turned_periodic(m: Seq<Seq<u64>>, n: nat, k: nat)
    requires
        is_square(m, n),
    ensures
        turned(m, k) == turned(m, k % 4),
    decreases k,
{
    if k >= 4 {
        let rest = (k - 4) as nat;
        lemma_turned_periodic(m, n, rest);
        lemma_turned_twice(m, rest, 4);
        lemma_turned_square(m, n, rest);
        lemma_four_quarter_turns(turned(m, rest), n);
    }
}

/// The index `base + d`.
pub fn shifted_index(base: usize, d: isize) -> (i: usize)
    requires
        0 <= base + d <= usize::MAX,
    ensures
        i == base + d,
{
    if d >= 0 {
        base + (d as usize)
    } else {
        let back: usize = (-(d + 1)) as usize;
        base - back - 1
    }
}

/// Whether `g` has `n` rows of `n` cells each.
pub fn has_shape(g: &Vec<Vec<u64>>, n: usize) -> (r: bool)
    ensures
        r == is_square(rows(*g), n as nat),
{
    if g.len() != n {
        return false;
    }
    let mut i: usize = 0;
    while i < n
        invariant
            i <= n,
            g@.len() == n,
            forall|a: int| 0 <= a < i ==> (#[trigger] rows(*g)[a]).len() == n,
        decreases n - i,
    {
        if g[i].len() != n {
            assert(rows(*g)[i as int].len() != n);
            return false;
        }
        i += 1;
    }
    true
}

/// A grid of `n` rows of `n` cells, all of them `value`.
pub fn uniform(n: usize, value: u64) -> (g: Vec<Vec<u64>>)
    ensures
        is_uniform(rows(g), n as nat, value),
{
    let mut g: Vec<Vec<u64>> = Vec::new();
    let mut i: usize = 0;
    while i < n
        invariant
            i <= n,
            g@.len() == i,
            forall|a: int| 0 <= a < i ==> (#[trigger] g@[a])@.len() == n,
            forall|a: int, b: int| 0 <= a < i && 0 <= b < n ==> (#[trigger] g@[a]@[b]) == value,
        decreases n - i,
    {
        let mut row: Vec<u64> = Vec::new();
        let mut j: usize = 0;
        while j < n
            invariant
                j <= n,
                row@.len() == j,
                forall|b: int| 0 <= b < j ==> (#[trigger] row@[b]) == value,
            decreases n - j,
        {
            row.push(value);
            j += 1;
        }
        g.push(row);
        i += 1;
    }
    assert forall|a: int, b: int| 0 <= a < n && 0 <= b < n implies (#[trigger] rows(g)[a][b])
        == value by {
        assert(g@[a]@[b] == value);
    }
    g
}

/// `g` turned clockwise by a right angle.
pub fn quarter_turned(g: &Vec<Vec<u64>>) -> (t: Vec<Vec<u64>>)
    requires
        is_square(rows(*g), g@.len()),
    ensures
        rows(t) == quarter_turn(rows(*g)),
{
    let n = g.len();
    let mut t: Vec<Vec<u64>> = Vec::new();
    let mut x: usize = 0;
    while x < n
        invariant
            n == g@.len(),
            is_square(rows(*g), g@.len()),
            x <= n,
            t@.len() == x,
            forall|a: int| 0 <= a < x ==> (#[trigger] t@[a])@ == quarter_turn(rows(*g))[a],
        decreases n - x,
    {
        let mut row: Vec<u64> = Vec::new();
        let mut y: usize = 0;
        while y < n
            invariant
                n == g@.len(),
                is_square(rows(*g), g@.len()),
                x < n,
                y <= n,
                row@.len() == y,
                forall|b: int| 0 <= b < y ==> (#[trigger] row@[b]) == rows(*g)[b][n - 1 - x],
            decreases n - y,
        {
            assert(rows(*g)[y as int].len() == n);
            row.push(g[y][n - 1 - x]);
            y += 1;
        }
        assert(row@ =~= quarter_turn(rows(*g))[x as int]);
        t.push(row);
        x += 1;
    }
    assert(rows(t) =~= quarter_turn(rows(*g)));
    t
}

/// A copy of `g`.
pub fn copied(g: &Vec<Vec<u64>>) -> (c: Vec<Vec<u64>>)
    ensures
        rows(c) == rows(*g),
{
    let mut c: Vec<Vec<u64>> = Vec::new();
    let mut i: usize = 0;
    while i < g.len()
        invariant
            i <= g@.len(),
            c@.len() == i,
            forall|a: int| 0 <= a < i ==> (#[trigger] c@[a])@ == g@[a]@,
        decreases g@.len() - i,
    {
        let mut row: Vec<u64> = Vec::new();
        let mut j: usize = 0;
        while j < g[i].len()
            invariant
                i < g@.len(),
                j <= g@[i as int]@.len(),
                row@.len() == j,
                forall|b: int| 0 <= b < j ==> (#[trigger] row@[b]) == g@[i as int]@[b],
            decreases g@[i as int]@.len() - j,
        {
            row.push(g[i][j]);
            j += 1;
        }
        assert(row@ =~= g@[i as int]@);
        c.push(row);
        i += 1;
    }
    assert(rows(c) =~= rows(*g));
    c
}

/// Whether `a` and `b` hold the same cells.
pub fn same(a: &Vec<Vec<u64>>, b: &Vec<Vec<u64>>) -> (r: bool)
    ensures
        r <==> rows(*a) == rows(*b),
{
    if a.len() != b.len() {
        assert(rows(*a).len() != rows(*b).len());
        return false;
    }
    let mut i: usize = 0;
    while i < a.len()
        invariant
            a@.len() == b@.len(),
            i <= a@.len(),
            forall|k: int| 0 <= k < i ==> (#[trigger] a@[k])@ == b@[k]@,
        decreases a@.len() - i,
    {
        if a[i].len() != b[i].len() {
            assert(rows(*a)[i as int].len() != rows(*b)[i as int].len());
            return false;
        }
        let mut j: usize = 0;
        while j < a[i].len()
            invariant
                i < a@.len(),
                a@.len() == b@.len(),
                a@[i as int]@.len() == b@[i as int]@.len(),
                j <= a@[i as int]@.len(),
                forall|k: int| 0 <= k < j ==> (#[trigger] a@[i as int]@[k]) == b@[i as int]@[k],
            decreases a@[i as int]@.len() - j,
        {
            if a[i][j] != b[i][j] {
                assert(rows(*a)[i as int][j as int] != rows(*b)[i as int][j as int]);
                return false;
            }
            j += 1;
        }
        assert(a@[i as int]@ =~= b@[i as int]@);
        i += 1;
    }
    assert(rows(*a) =~= rows(*b));
    true
}

/// The grids of `stack` as mathematical sequences.
pub open spec fn layers_of(stack: Vec<Vec<Vec<u64>>>) -> Seq<Seq<Seq<u64>>> {
    Seq::new(stack@.len(), |t: int| rows(stack@[t]))
}

/// The stacks of `pile` as mathematical sequences.
pub open spec fn piles_of(pile: Vec<Vec<Vec<Vec<u64>>>>) -> Seq<Seq<Seq<Seq<u64>>>> {
    Seq::new(pile@.len(), |t: int| layers_of(pile@[t]))
}

/// Whether `a` and `b` hold the same grids.
pub fn same_stack(a: &Vec<Vec<Vec<u64>>>, b: &Vec<Vec<Vec<u64>>>) -> (r: bool)
    ensures
        r <==> layers_of(*a) == layers_of(*b),
{
    if a.len() != b.len() {
        assert(layers_of(*a).len() != layers_of(*b).len());
        return false;
    }
    let mut t: usize = 0;
    while t < a.len()
        invariant
            a@.len() == b@.len(),
            t <= a@.len(),
            forall|k: int| 0 <= k < t ==> rows(#[trigger] a@[k]) == rows(b@[k]),
        decreases a@.len() - t,
    {
        if !same(&a[t], &b[t]) {
            assert(layers_of(*a)[t as int] != layers_of(*b)[t as int]);
            return false;
        }
        t += 1;
    }
    assert(layers_of(*a) =~= layers_of(*b));
    true
}

/// Whether `a` and `b` hold the same stacks.
pub fn same_pile(a: &Vec<Vec<Vec<Vec<u64>>>>, b: &Vec<Vec<Vec<Vec<u64>>>>) -> (r: bool)
    ensures
        r <==> piles_of(*a) == piles_of(*b),
{
    if a.len() != b.len() {
        assert(piles_of(*a).len() != piles_of(*b).len());
        return false;
    }
    let mut t: usize = 0;
    while t < a.len()
        invariant
            a@.len() == b@.len(),
            t <= a@.len(),
            forall|k: int| 0 <= k < t ==> layers_of(#[trigger] a@[k]) == layers_of(b@[k]),
        decreases a@.len() - t,
    {
        if !same_stack(&a[t], &b[t]) {
            assert(piles_of(*a)[t as int] != piles_of(*b)[t as int]);
            return false;
        }
        t += 1;
    }
    assert(piles_of(*a) =~= piles_of(*b));
    true
}

/// A copy of `stack`.
pub fn copied_stack(stack: &Vec<Vec<Vec<u64>>>) -> (c: Vec<Vec<Vec<u64>>>)
    ensures
        layers_of(c) == layers_of(*stack),
{
    let mut c: Vec<Vec<Vec<u64>>> = Vec::new();
    let mut t: usize = 0;
    while t < stack.len()
        invariant
            t <= stack@.len(),
            c@.len() == t,
            forall|k: int| 0 <= k < t ==> rows(#[trigger] c@[k]) == rows(stack@[k]),
        decreases stack@.len() - t,
    {
        c.push(copied(&stack[t]));
        t += 1;
    }
    assert(layers_of(c) =~= layers_of(*stack));
    c
}

/// A copy of `pile`.
pub fn copied_pile(pile: &Vec<Vec<Vec<Vec<u64>>>>) -> (c: Vec<Vec<Vec<Vec<u64>>>>)
    ensures
        piles_of(c) == piles_of(*pile),
{
    let mut c: Vec<Vec<Vec<Vec<u64>>>> = Vec::new();
    let mut t: usize = 0;
    while t < pile.len()
        invariant
            t <= pile@.len(),
            c@.len() == t,
            forall|k: int| 0 <= k < t ==> layers_of(#[trigger] c@[k]) == layers_of(pile@[k]),
        decreases pile@.len() - t,
    {
        c.push(copied_stack(&pile[t]));
        t += 1;
    }
    assert(piles_of(c) =~= piles_of(*pile));
    c
}

} // verus!
