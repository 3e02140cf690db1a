//! The in-process stand-in for an external BLAS routine: the blocked kernel
//! with cubes of edge `BLOCK_SIZE`.
use vstd::prelude::*;

use crate::matmul::{as_ints, product, shapes_agree};
use crate::matmul::tiled::matmul_blocked;

verus! {

/// The edge of a cube of this kernel.
pub const BLOCK_SIZE: usize = 32;

/// `C = A x B` with cubes of edge `BLOCK_SIZE`. Every entry of `c` is overwritten.
pub fn matmul(a: &Vec<i32>, b: &Vec<i32>, c: &mut Vec<i128>, m: usize, n: usize, k: usize)
    requires
        shapes_agree(a@, b@, old(c)@.len(), m as nat, n as nat, k as nat),
    ensures
        as_ints(final(c)@) == product(a@, b@, m as nat, n as nat, k as nat),
{
    matmul_blocked(a, b, c, m, n, k, BLOCK_SIZE);
}

} // verus!
