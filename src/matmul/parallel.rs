//! The row-parallel kernel: each output row is one task of rayon's pool, and
//! the rows handed to the tasks never overlap.
use rayon::iter::{IndexedParallelIterator, ParallelIterator};
use rayon::slice::ParallelSliceMut;
use vstd::prelude::*;

use crate::matmul::naive::dot_entry;
use crate::matmul::{as_ints, dot, lemma_row_of, partial, product, shapes_agree};

verus! {

/// Writes row `i` of `A x B` into `row`, one accumulator per entry.
pub fn fill_row(a: &Vec<i32>, b: &Vec<i32>, row: &mut [i128], m: usize, n: usize, k: usize, i: usize)
    requires
        shapes_agree(a@, b@, (m * n) as nat, m as nat, n as nat, k as nat),
        i < m,
        old(row)@.len() == n,
    ensures
        final(row)@.len() == n,
        forall|j: int| 0 <= j < n ==> #[trigger] final(row)@[j] == dot(a@, b@, n as int, k as int, i as int, j, 0, k as int),
{
    for j in 0..n
        invariant
            shapes_agree(a@, b@, (m * n) as nat, m as nat, n as nat, k as nat),
            i < m,
            row@.len() == n,
            forall|s: int| 0 <= s < j ==> #[trigger] row@[s] == dot(a@, b@, n as int, k as int, i as int, s, 0, k as int),
    {
        let sum = dot_entry(a, b, m, n, k, i, j);
        row[j] = sum;
    }
}

/// Relies on rayon's `par_chunks_mut(n)`, `enumerate` and `for_each`: the
/// chunks are the disjoint rows `c[i*n .. (i+1)*n]`, each handed once with its
/// index `i` to `fill_row`, and every task has ended when the call returns.
#[verifier::external_body]
fn for_each_row(a: &Vec<i32>, b: &Vec<i32>, c: &mut Vec<i128>, m: usize, n: usize, k: usize)
    requires
        shapes_agree(a@, b@, old(c)@.len(), m as nat, n as nat, k as nat),
        n > 0,
    ensures
        final(c)@.len() == old(c)@.len(),
        forall|p: int| 0 <= p < m * n ==> #[trigger] final(c)@[p] == partial(a@, b@, n as nat, k as nat, p, k as int),
{
    c.as_mut_slice().par_chunks_mut(n).enumerate().for_each(|(i, row)| fill_row(a, b, row, m, n, k, i));
}

/// `C = A x B` with the rows of `C` computed in parallel. Every entry of `c`
/// is overwritten.
pub fn matmul(a: &Vec<i32>, b: &Vec<i32>, c: &mut Vec<i128>, m: usize, n: usize, k: usize)
    requires
        shapes_agree(a@, b@, old(c)@.len(), m as nat, n as nat, k as nat),
    ensures
        as_ints(final(c)@) == product(a@, b@, m as nat, n as nat, k as nat),
{
    if n > 0 {
        for_each_row(a, b, c, m, n, k);
    }
    proof {
        assert forall|p: int| 0 <= p < m * n implies as_ints(c@)[p] == #[trigger] product(a@, b@, m as nat, n as nat, k as nat)[p] by {
            lemma_row_of(p, m as int, n as int);
        }
    }
    assert(as_ints(c@) =~= product(a@, b@, m as nat, n as nat, k as nat));
}

} // verus!
