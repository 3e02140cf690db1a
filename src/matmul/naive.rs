//! The reference kernel: a triple loop in `i`, `j`, `l` order with one
//! accumulator per output entry.
use vstd::prelude::*;

use crate::matmul::{as_ints, dot, lemma_dot_bound, lemma_flat_index, lemma_term_bound, lemma_product_entry, product, shapes_agree, term};

verus! {

/// Computes entry `(i, j)` of `A x B` with one accumulator.
pub(crate) fn dot_entry(a: &Vec<i32>, b: &Vec<i32>, m: usize, n: usize, k: usize, i: usize, j: usize) -> (r: i128)
    requires
        shapes_agree(a@, b@, (m * n) as nat, m as nat, n as nat, k as nat),
        i < m,
        j < n,
    ensures
        r == dot(a@, b@, n as int, k as int, i as int, j as int, 0, k as int),
{
    let mut sum: i128 = 0;
    for l in 0..k
        invariant
            shapes_agree(a@, b@, (m * n) as nat, m as nat, n as nat, k as nat),
            i < m,
            j < n,
            sum == dot(a@, b@, n as int, k as int, i as int, j as int, 0, l as int),
    {
        proof {
            lemma_flat_index(i as int, l as int, m as int, k as int);
            lemma_flat_index(l as int, j as int, k as int, n as int);
            lemma_dot_bound(a@, b@, n as int, k as int, i as int, j as int, 0, l as int + 1);
            lemma_term_bound(a@, b@, n as int, k as int, i as int, j as int, l as int);
            assert(dot(a@, b@, n as int, k as int, i as int, j as int, 0, l as int + 1) == sum + term(a@, b@, n as int, k as int, i as int, j as int, l as int));
            assert((l as int + 1) * 0x4000_0000_0000_0000 <= 0x1_0000_0000_0000_0000 * 0x4000_0000_0000_0000) by (nonlinear_arith)
                requires l < 0x1_0000_0000_0000_0000;
        }
        sum = sum + (a[i * k + l] as i128) * (b[l * n + j] as i128);
    }
    sum
}

/// `C = A x B` by the textbook triple loop. Every entry of `c` is overwritten.
pub fn matmul(a: &Vec<i32>, b: &Vec<i32>, c: &mut Vec<i128>, m: usize, n: usize, k: usize)
    requires
        shapes_agree(a@, b@, old(c)@.len(), m as nat, n as nat, k as nat),
    ensures
        as_ints(final(c)@) == product(a@, b@, m as nat, n as nat, k as nat),
{
    assert(0 * n == 0);
    for i in 0..m
        invariant
            shapes_agree(a@, b@, c@.len(), m as nat, n as nat, k as nat),
            forall|p: int| 0 <= p < i * n ==> c@[p] as int == #[trigger] product(a@, b@, m as nat, n as nat, k as nat)[p],
    {
        for j in 0..n
            invariant
                i < m,
                shapes_agree(a@, b@, c@.len(), m as nat, n as nat, k as nat),
                forall|p: int| 0 <= p < i * n + j ==> c@[p] as int == #[trigger] product(a@, b@, m as nat, n as nat, k as nat)[p],
        {
            proof {
                lemma_flat_index(i as int, j as int, m as int, n as int);
                lemma_product_entry(a@, b@, m as nat, n as nat, k as nat, i as int, j as int);
            }
            let v = dot_entry(a, b, m, n, k, i, j);
            c.set(i * n + j, v);
        }
        assert(i * n + n == (i + 1) * n) by (nonlinear_arith);
    }
    assert(as_ints(c@) =~= product(a@, b@, m as nat, n as nat, k as nat));
}

} // verus!
