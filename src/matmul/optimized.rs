//! The optimized kernel of a benchmark run. A native routine is not linked
//! into this library, so the kernel is the in-process blocked one.
use vstd::prelude::*;

use crate::matmul::{as_ints, product, shapes_agree};

verus! {

/// `C = A x B` by the blocked kernel of `blis`. Every entry of `c` is overwritten.
pub fn matmul(a: &Vec<i32>, b: &Vec<i32>, c: &mut Vec<i128>, m: usize, n: usize, k: usize)
    requires
        shapes_agree(a@, b@, old(c)@.len(), m as nat, n as nat, k as nat),
    ensures
        as_ints(final(c)@) == product(a@, b@, m as nat, n as nat, k as nat),
{
    crate::matmul::blis::matmul(a, b, c, m, n, k);
}

} // verus!
