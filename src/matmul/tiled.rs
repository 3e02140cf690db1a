//! The cache-blocked kernel: the `i`, `j`, `l` space is cut into cubes whose
//! edges are clipped at the matrix borders, and each cube adds its part of
//! the sums into the output.
use vstd::prelude::*;

use crate::matmul::{
    as_ints, dot, in_block, lemma_dot_bound, lemma_flat_index, lemma_row_of,
    lemma_term_bound, partial, product, shapes_agree,
};
use crate::matmul::vectorized::accumulate_block_lanes;

verus! {

/// The edge of a cube of the blocked kernel.
pub const TILE_SIZE: usize = 64;

/// The end of the block that starts at `start`: `min(start + block, len)`.
pub fn block_end(start: usize, block: usize, len: usize) -> (r: usize)
    requires
        start <= len,
    ensures
        r == if start + block < len { start + block } else { len as int },
{
    if len - start > block {
        start + block
    } else {
        len
    }
}

/// Adds `sum_{k0 <= l < k1} a[i*k+l] * b[l*n+j]` to each entry `(i, j)` of
/// the block `[i0, i1) x [j0, j1)`; entries outside it are left alone.
fn accumulate_block(
    a: &Vec<i32>,
    b: &Vec<i32>,
    c: &mut Vec<i128>,
    m: usize,
    n: usize,
    k: usize,
    i0: usize,
    i1: usize,
    j0: usize,
    j1: usize,
    k0: usize,
    k1: usize,
)
    requires
        shapes_agree(a@, b@, old(c)@.len(), m as nat, n as nat, k as nat),
        i0 <= i1 <= m,
        j0 <= j1 <= n,
        k0 <= k1 <= k,
        forall|p: int|
            0 <= p < m * n && in_block(p, n as nat, i0 as int, i1 as int, j0 as int, j1 as int)
                ==> #[trigger] old(c)@[p] == partial(a@, b@, n as nat, k as nat, p, k0 as int),
    ensures
        final(c)@.len() == old(c)@.len(),
        forall|p: int|
            0 <= p < m * n ==> #[trigger] final(c)@[p] == if in_block(p, n as nat, i0 as int, i1 as int, j0 as int, j1 as int) {
                partial(a@, b@, n as nat, k as nat, p, k1 as int)
            } else {
                old(c)@[p] as int
            },
{
    let ghost c0 = c@;
    for i in i0..i1
        invariant
            shapes_agree(a@, b@, c@.len(), m as nat, n as nat, k as nat),
            i0 <= i1 <= m,
            j0 <= j1 <= n,
            k0 <= k1 <= k,
            forall|p: int|
                0 <= p < m * n && in_block(p, n as nat, i0 as int, i1 as int, j0 as int, j1 as int)
                    ==> #[trigger] c0[p] == partial(a@, b@, n as nat, k as nat, p, k0 as int),
            forall|p: int|
                0 <= p < m * n ==> #[trigger] c@[p] == if in_block(p, n as nat, i0 as int, i as int, j0 as int, j1 as int) {
                    partial(a@, b@, n as nat, k as nat, p, k1 as int)
                } else {
                    c0[p] as int
                },
    {
        for j in j0..j1
            invariant
                shapes_agree(a@, b@, c@.len(), m as nat, n as nat, k as nat),
                i0 <= i < i1 <= m,
                j0 <= j1 <= n,
                k0 <= k1 <= k,
                forall|p: int|
                    0 <= p < m * n && in_block(p, n as nat, i0 as int, i1 as int, j0 as int, j1 as int)
                        ==> #[trigger] c0[p] == partial(a@, b@, n as nat, k as nat, p, k0 as int),
                forall|p: int|
                    0 <= p < m * n ==> #[trigger] c@[p] == if in_block(p, n as nat, i0 as int, i as int, j0 as int, j1 as int)
                        || in_block(p, n as nat, i as int, i as int + 1, j0 as int, j as int) {
                        partial(a@, b@, n as nat, k as nat, p, k1 as int)
                    } else {
                        c0[p] as int
                    },
        {
            proof {
                lemma_flat_index(i as int, j as int, m as int, n as int);
            }
            let idx = i * n + j;
            let mut sum: i128 = c[idx];
            assert(sum == dot(a@, b@, n as int, k as int, i as int, j as int, 0, k0 as int));
            for l in k0..k1
                invariant
                    shapes_agree(a@, b@, c@.len(), m as nat, n as nat, k as nat),
                    i < m,
                    j < n,
                    k1 <= k,
                    sum == dot(a@, b@, n as int, k as int, i as int, j as int, 0, l as int),
            {
                proof {
                    lemma_flat_index(i as int, l as int, m as int, k as int);
                    lemma_flat_index(l as int, j as int, k as int, n as int);
                    lemma_dot_bound(a@, b@, n as int, k as int, i as int, j as int, 0, l as int + 1);
                    lemma_term_bound(a@, b@, n as int, k as int, i as int, j as int, l as int);
                    assert((l as int + 1) * 0x4000_0000_0000_0000 <= 0x1_0000_0000_0000_0000 * 0x4000_0000_0000_0000)
                        by (nonlinear_arith)
                        requires
                            l < 0x1_0000_0000_0000_0000,
                    ;
                }
                sum = sum + (a[i * k + l] as i128) * (b[l * n + j] as i128);
            }
            c.set(idx, sum);
            proof {
                assert forall|p: int| 0 <= p < m * n implies #[trigger] c@[p] == if in_block(p, n as nat, i0 as int, i as int, j0 as int, j1 as int)
                    || in_block(p, n as nat, i as int, i as int + 1, j0 as int, j as int + 1) {
                    partial(a@, b@, n as nat, k as nat, p, k1 as int)
                } else {
                    c0[p] as int
                } by {
                    lemma_row_of(p, m as int, n as int);
                    assert((n as int) * (i as int) == (i as int) * (n as int)) by (nonlinear_arith);
                    if p != idx {
                        assert(p / (n as int) != i || p % (n as int) != j);
                    }
                }
            }
        }
        proof {
            assert forall|p: int| 0 <= p < m * n implies #[trigger] c@[p] == if in_block(p, n as nat, i0 as int, i as int + 1, j0 as int, j1 as int) {
                partial(a@, b@, n as nat, k as nat, p, k1 as int)
            } else {
                c0[p] as int
            } by {
                lemma_row_of(p, m as int, n as int);
            }
        }
    }
}

/// `C = A x B` computed cube by cube, with cubes of edge `block` clipped at
/// the borders. Every entry of `c` is overwritten.
pub fn matmul_blocked(a: &Vec<i32>, b: &Vec<i32>, c: &mut Vec<i128>, m: usize, n: usize, k: usize, block: usize)
    requires
        shapes_agree(a@, b@, old(c)@.len(), m as nat, n as nat, k as nat),
        block > 0,
    ensures
        as_ints(final(c)@) == product(a@, b@, m as nat, n as nat, k as nat),
{
    run_blocks(a, b, c, m, n, k, block, false);
}

/// The cube loop shared by the blocked kernels: each cube is handled by the
/// scalar inner loops, or by the lane loops when `lanes` is set.
pub(crate) fn run_blocks(a: &Vec<i32>, b: &Vec<i32>, c: &mut Vec<i128>, m: usize, n: usize, k: usize, block: usize, lanes: bool)
    requires
        shapes_agree(a@, b@, old(c)@.len(), m as nat, n as nat, k as nat),
        block > 0,
    ensures
        as_ints(final(c)@) == product(a@, b@, m as nat, n as nat, k as nat),
{
    let len = m * n;
    for p in 0..len
        invariant
            shapes_agree(a@, b@, c@.len(), m as nat, n as nat, k as nat),
            len == m * n,
            forall|q: int| 0 <= q < p ==> #[trigger] c@[q] == 0,
    {
        c.set(p, 0);
    }
    let mut ii: usize = 0;
    while ii < m
        invariant
            shapes_agree(a@, b@, c@.len(), m as nat, n as nat, k as nat),
            ii <= m,
            block > 0,
            forall|p: int|
                0 <= p < m * n ==> #[trigger] c@[p] == if p / (n as int) < ii {
                    partial(a@, b@, n as nat, k as nat, p, k as int)
                } else {
                    0
                },
        decreases m - ii,
    {
        let i_end = block_end(ii, block, m);
        let mut jj: usize = 0;
        while jj < n
            invariant
                shapes_agree(a@, b@, c@.len(), m as nat, n as nat, k as nat),
                ii < i_end <= m,
                jj <= n,
                block > 0,
                forall|p: int|
                    0 <= p < m * n ==> #[trigger] c@[p] == if p / (n as int) < ii || in_block(p, n as nat, ii as int, i_end as int, 0, jj as int) {
                        partial(a@, b@, n as nat, k as nat, p, k as int)
                    } else {
                        0
                    },
            decreases n - jj,
        {
            let j_end = block_end(jj, block, n);
            let mut kk: usize = 0;
            while kk < k
                invariant
                    shapes_agree(a@, b@, c@.len(), m as nat, n as nat, k as nat),
                    ii < i_end <= m,
                    jj < j_end <= n,
                    kk <= k,
                    block > 0,
                    forall|p: int|
                        0 <= p < m * n ==> #[trigger] c@[p] == if p / (n as int) < ii || in_block(p, n as nat, ii as int, i_end as int, 0, jj as int) {
                            partial(a@, b@, n as nat, k as nat, p, k as int)
                        } else if in_block(p, n as nat, ii as int, i_end as int, jj as int, j_end as int) {
                            partial(a@, b@, n as nat, k as nat, p, kk as int)
                        } else {
                            0
                        },
                decreases k - kk,
            {
                let k_end = block_end(kk, block, k);
                if lanes {
                    accumulate_block_lanes(a, b, c, m, n, k, ii, i_end, jj, j_end, kk, k_end);
                } else {
                    accumulate_block(a, b, c, m, n, k, ii, i_end, jj, j_end, kk, k_end);
                }
                kk = k_end;
            }
            proof {
                assert forall|p: int| 0 <= p < m * n implies #[trigger] c@[p] == if p / (n as int) < ii || in_block(p, n as nat, ii as int, i_end as int, 0, j_end as int) {
                    partial(a@, b@, n as nat, k as nat, p, k as int)
                } else {
                    0
                } by {
                    lemma_row_of(p, m as int, n as int);
                }
            }
            jj = j_end;
        }
        proof {
            assert forall|p: int| 0 <= p < m * n implies #[trigger] c@[p] == if p / (n as int) < i_end {
                partial(a@, b@, n as nat, k as nat, p, k as int)
            } else {
                0
            } by {
                lemma_row_of(p, m as int, n as int);
            }
        }
        ii = i_end;
    }
    proof {
        assert forall|p: int| 0 <= p < m * n implies as_ints(c@)[p] == #[trigger] product(a@, b@, m as nat, n as nat, k as nat)[p] by {
            lemma_row_of(p, m as int, n as int);
        }
    }
    assert(as_ints(c@) =~= product(a@, b@, m as nat, n as nat, k as nat));
}

/// `C = A x B` with cubes of edge `TILE_SIZE`. Every entry of `c` is overwritten.
pub fn matmul(a: &Vec<i32>, b: &Vec<i32>, c: &mut Vec<i128>, m: usize, n: usize, k: usize)
    requires
        shapes_agree(a@, b@, old(c)@.len(), m as nat, n as nat, k as nat),
    ensures
        as_ints(final(c)@) == product(a@, b@, m as nat, n as nat, k as nat),
{
    matmul_blocked(a, b, c, m, n, k, TILE_SIZE);
}

} // verus!
