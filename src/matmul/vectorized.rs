//! The lane kernel: the blocked loop structure, with the inner `j` loop run
//! `VECTOR_SIZE` columns at a time through a small array of accumulators.
use vstd::prelude::*;

use crate::matmul::{
    as_ints, dot, in_block, lemma_dot_bound, lemma_dot_split, lemma_flat_index, lemma_row_of,
    lemma_term_bound, partial, product, shapes_agree,
};
use crate::matmul::tiled::{block_end, run_blocks};

verus! {

/// The edge of a cube of the lane kernel.
pub const TILE: usize = 64;

/// The number of columns that one group of accumulators covers.
pub const VECTOR_SIZE: usize = 4;

/// Adds `sum_{k0 <= l < k1} a[i*k+l] * b[l*n+j]` to each entry `(i, j)` of
/// the block `[i0, i1) x [j0, j1)`, `VECTOR_SIZE` columns at a time; entries
/// outside the block are left alone.
pub(crate) fn accumulate_block_lanes(
    a: &Vec<i32>,
    b: &Vec<i32>,
    c: &mut Vec<i128>,
    m: usize,
    n: usize,
    k: usize,
    i0: usize,
    i1: usize,
    j0: usize,
    j1: usize,
    k0: usize,
    k1: usize,
)
    requires
        shapes_agree(a@, b@, old(c)@.len(), m as nat, n as nat, k as nat),
        i0 <= i1 <= m,
        j0 <= j1 <= n,
        k0 <= k1 <= k,
        forall|p: int|
            0 <= p < m * n && in_block(p, n as nat, i0 as int, i1 as int, j0 as int, j1 as int)
                ==> #[trigger] old(c)@[p] == partial(a@, b@, n as nat, k as nat, p, k0 as int),
    ensures
        final(c)@.len() == old(c)@.len(),
        forall|p: int|
            0 <= p < m * n ==> #[trigger] final(c)@[p] == if in_block(p, n as nat, i0 as int, i1 as int, j0 as int, j1 as int) {
                partial(a@, b@, n as nat, k as nat, p, k1 as int)
            } else {
                old(c)@[p] as int
            },
{
    let ghost c0 = c@;
    for i in i0..i1
        invariant
            shapes_agree(a@, b@, c@.len(), m as nat, n as nat, k as nat),
            i0 <= i1 <= m,
            j0 <= j1 <= n,
            k0 <= k1 <= k,
            forall|p: int|
                0 <= p < m * n && in_block(p, n as nat, i0 as int, i1 as int, j0 as int, j1 as int)
                    ==> #[trigger] c0[p] == partial(a@, b@, n as nat, k as nat, p, k0 as int),
            forall|p: int|
                0 <= p < m * n ==> #[trigger] c@[p] == if in_block(p, n as nat, i0 as int, i as int, j0 as int, j1 as int) {
                    partial(a@, b@, n as nat, k as nat, p, k1 as int)
                } else {
                    c0[p] as int
                },
    {
        let mut j: usize = j0;
        while j < j1
            invariant
                shapes_agree(a@, b@, c@.len(), m as nat, n as nat, k as nat),
                i0 <= i < i1 <= m,
                j0 <= j <= j1 <= n,
                k0 <= k1 <= k,
                forall|p: int|
                    0 <= p < m * n && in_block(p, n as nat, i0 as int, i1 as int, j0 as int, j1 as int)
                        ==> #[trigger] c0[p] == partial(a@, b@, n as nat, k as nat, p, k0 as int),
                forall|p: int|
                    0 <= p < m * n ==> #[trigger] c@[p] == if in_block(p, n as nat, i0 as int, i as int, j0 as int, j1 as int)
                        || in_block(p, n as nat, i as int, i as int + 1, j0 as int, j as int) {
                        partial(a@, b@, n as nat, k as nat, p, k1 as int)
                    } else {
                        c0[p] as int
                    },
            decreases j1 - j,
        {
            let j_vec_end = block_end(j, VECTOR_SIZE, j1);
            let width = j_vec_end - j;
            let mut acc: Vec<i128> = vec![0, 0, 0, 0];
            for l in k0..k1
                invariant
                    shapes_agree(a@, b@, c@.len(), m as nat, n as nat, k as nat),
                    i < m,
                    j + width <= n,
                    width <= VECTOR_SIZE,
                    k1 <= k,
                    k0 <= k1,
                    acc@.len() == VECTOR_SIZE,
                    forall|t: int| 0 <= t < width ==> #[trigger] acc@[t] == dot(a@, b@, n as int, k as int, i as int, j + t, k0 as int, l as int),
            {
                proof {
                    lemma_flat_index(i as int, l as int, m as int, k as int);
                }
                let a_val = a[i * k + l] as i128;
                for t in 0..width
                    invariant
                        shapes_agree(a@, b@, c@.len(), m as nat, n as nat, k as nat),
                        i < m,
                        j + width <= n,
                        width <= VECTOR_SIZE,
                        k0 <= l < k1 <= k,
                        a_val == a@[i * k + l],
                        acc@.len() == VECTOR_SIZE,
                        forall|s: int| 0 <= s < t ==> #[trigger] acc@[s] == dot(a@, b@, n as int, k as int, i as int, j + s, k0 as int, l + 1),
                        forall|s: int| t <= s < width ==> #[trigger] acc@[s] == dot(a@, b@, n as int, k as int, i as int, j + s, k0 as int, l as int),
                {
                    proof {
                        lemma_flat_index(l as int, j + t, k as int, n as int);
                        lemma_dot_bound(a@, b@, n as int, k as int, i as int, j + t, k0 as int, l + 1);
                        lemma_term_bound(a@, b@, n as int, k as int, i as int, j + t, l as int);
                        assert((l + 1 - k0) * 0x4000_0000_0000_0000 <= 0x1_0000_0000_0000_0000 * 0x4000_0000_0000_0000)
                            by (nonlinear_arith)
                            requires
                                l + 1 - k0 <= 0x1_0000_0000_0000_0000,
                        ;
                    }
                    let v = acc[t] + a_val * (b[l * n + j + t] as i128);
                    acc.set(t, v);
                }
            }
            let ghost c1 = c@;
            for t in 0..width
                invariant
                    shapes_agree(a@, b@, c@.len(), m as nat, n as nat, k as nat),
                    i0 <= i < i1 <= m,
                    j0 <= j < j1 <= n,
                    j + width <= j1,
                    width <= VECTOR_SIZE,
                    k0 <= k1 <= k,
                    acc@.len() == VECTOR_SIZE,
                    forall|s: int| 0 <= s < width ==> #[trigger] acc@[s] == dot(a@, b@, n as int, k as int, i as int, j + s, k0 as int, k1 as int),
                    forall|p: int|
                        0 <= p < m * n && in_block(p, n as nat, i0 as int, i1 as int, j0 as int, j1 as int)
                            ==> #[trigger] c0[p] == partial(a@, b@, n as nat, k as nat, p, k0 as int),
                    forall|p: int|
                        0 <= p < m * n ==> #[trigger] c@[p] == if in_block(p, n as nat, i0 as int, i as int, j0 as int, j1 as int)
                            || in_block(p, n as nat, i as int, i as int + 1, j0 as int, j + t) {
                            partial(a@, b@, n as nat, k as nat, p, k1 as int)
                        } else {
                            c0[p] as int
                        },
            {
                proof {
                    lemma_flat_index(i as int, j + t, m as int, n as int);
                }
                let idx = i * n + j + t;
                proof {
                    let jt = j + t;
                    assert(c0[idx as int] == partial(a@, b@, n as nat, k as nat, idx as int, k0 as int));
                    lemma_dot_split(a@, b@, n as int, k as int, i as int, jt, 0, k0 as int, k1 as int);
                    lemma_dot_bound(a@, b@, n as int, k as int, i as int, jt, 0, k1 as int);
                    assert(k1 * 0x4000_0000_0000_0000 <= 0x1_0000_0000_0000_0000 * 0x4000_0000_0000_0000)
                        by (nonlinear_arith)
                        requires
                            k1 <= 0x1_0000_0000_0000_0000,
                    ;
                }
                let v = c[idx] + acc[t];
                c.set(idx, v);
                proof {
                    assert forall|p: int| 0 <= p < m * n implies #[trigger] c@[p] == if in_block(p, n as nat, i0 as int, i as int, j0 as int, j1 as int)
                        || in_block(p, n as nat, i as int, i as int + 1, j0 as int, j + t + 1) {
                        partial(a@, b@, n as nat, k as nat, p, k1 as int)
                    } else {
                        c0[p] as int
                    } by {
                        lemma_row_of(p, m as int, n as int);
                        assert((n as int) * (i as int) == (i as int) * (n as int)) by (nonlinear_arith);
                        if p != idx {
                            assert(p / (n as int) != i || p % (n as int) != j + t);
                        }
                    }
                }
            }
            j = j_vec_end;
        }
        proof {
            assert forall|p: int| 0 <= p < m * n implies #[trigger] c@[p] == if in_block(p, n as nat, i0 as int, i as int + 1, j0 as int, j1 as int) {
                partial(a@, b@, n as nat, k as nat, p, k1 as int)
            } else {
                c0[p] as int
            } by {
                lemma_row_of(p, m as int, n as int);
            }
        }
    }
}

/// `C = A x B` by cubes of edge `TILE` and groups of `VECTOR_SIZE`
/// accumulators; a group at the right edge of a cube flushes only the
/// columns it covers. Every entry of `c` is overwritten.
pub fn matmul(a: &Vec<i32>, b: &Vec<i32>, c: &mut Vec<i128>, m: usize, n: usize, k: usize)
    requires
        shapes_agree(a@, b@, old(c)@.len(), m as nat, n as nat, k as nat),
    ensures
        as_ints(final(c)@) == product(a@, b@, m as nat, n as nat, k as nat),
{
    run_blocks(a, b, c, m, n, k, TILE, true);
}

} // verus!
