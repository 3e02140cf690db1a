//! The matrix model shared by every kernel.
//!
//! Matrices are flat row-major buffers: entry `(i, j)` of a matrix with
//! `cols` columns sits at `i * cols + j`. Operands hold `i32` entries and the
//! product holds `i128` entries, wide enough for any sum of `i32` products
//! whose length fits in `usize`, so every kernel computes the product exactly.
use vstd::prelude::*;

pub mod blis;
pub mod gpu;
pub mod naive;
pub mod optimized;
pub mod tiled;
pub mod parallel;
pub mod vectorized;

verus! {

/// The largest magnitude of a product of two `i32` values.
pub open spec fn term_bound() -> int {
    0x4000_0000_0000_0000
}

/// `a[i*k + l] * b[l*n + j]`: one term of entry `(i, j)` of `A x B`.
pub open spec fn term(a: Seq<i32>, b: Seq<i32>, n: int, k: int, i: int, j: int, l: int) -> int {
    a[i * k + l] * b[l * n + j]
}

/// The sum of `term(.., l)` for `lo <= l < hi`.
pub open spec fn dot(a: Seq<i32>, b: Seq<i32>, n: int, k: int, i: int, j: int, lo: int, hi: int) -> int
    decreases hi - lo,
{
    if hi <= lo {
        0
    } else {
        dot(a, b, n, k, i, j, lo, hi - 1) + term(a, b, n, k, i, j, hi - 1)
    }
}

/// The row-major entries of `A x B` for `A: [m x k]` and `B: [k x n]`.
pub open spec fn product(a: Seq<i32>, b: Seq<i32>, m: nat, n: nat, k: nat) -> Seq<int> {
    Seq::new(m * n, |p: int| dot(a, b, n as int, k as int, p / (n as int), p % (n as int), 0, k as int))
}

/// Entry `p` of the output, row-major, summed over `l < hi` only.
pub open spec fn partial(a: Seq<i32>, b: Seq<i32>, n: nat, k: nat, p: int, hi: int) -> int {
    dot(a, b, n as int, k as int, p / (n as int), p % (n as int), 0, hi)
}

/// Flat index `p` lies in rows `[i0, i1)` and columns `[j0, j1)`.
pub open spec fn in_block(p: int, n: nat, i0: int, i1: int, j0: int, j1: int) -> bool {
    &&& i0 <= p / (n as int) < i1
    &&& j0 <= p % (n as int) < j1
}

/// The entries of a buffer as mathematical integers.
pub open spec fn as_ints(c: Seq<i128>) -> Seq<int> {
    c.map_values(|x: i128| x as int)
}

/// The shapes of the operands and of the output agree with `(m, n, k)`.
pub open spec fn shapes_agree(a: Seq<i32>, b: Seq<i32>, c_len: nat, m: nat, n: nat, k: nat) -> bool {
    &&& a.len() == m * k
    &&& b.len() == k * n
    &&& c_len == m * n
    &&& m * k <= usize::MAX
    &&& k * n <= usize::MAX
    &&& m * n <= usize::MAX
}

pub proof fn lemma_term_bound(a: Seq<i32>, b: Seq<i32>, n: int, k: int, i: int, j: int, l: int)
    ensures
        -term_bound() <= term(a, b, n, k, i, j, l) <= term_bound(),
{
    let x = a[i * k + l] as int;
    let y = b[l * n + j] as int;
    assert(-0x4000_0000_0000_0000 <= x * y <= 0x4000_0000_0000_0000) by (nonlinear_arith)
        requires
            -0x8000_0000 <= x < 0x8000_0000,
            -0x8000_0000 <= y < 0x8000_0000,
    ;
}

/// A sum of `hi - lo` terms is at most `hi - lo` times the bound of one term.
pub proof fn lemma_dot_bound(a: Seq<i32>, b: Seq<i32>, n: int, k: int, i: int, j: int, lo: int, hi: int)
    requires
        lo <= hi,
    ensures
        -(hi - lo) * term_bound() <= dot(a, b, n, k, i, j, lo, hi) <= (hi - lo) * term_bound(),
    decreases hi - lo,
{
    if lo < hi {
        lemma_dot_bound(a, b, n, k, i, j, lo, hi - 1);
        lemma_term_bound(a, b, n, k, i, j, hi - 1);
    }
}

/// Sums over adjacent ranges add up.
pub proof fn lemma_dot_split(a: Seq<i32>, b: Seq<i32>, n: int, k: int, i: int, j: int, lo: int, mid: int, hi: int)
    requires
        lo <= mid <= hi,
    ensures
        dot(a, b, n, k, i, j, lo, mid) + dot(a, b, n, k, i, j, mid, hi) == dot(a, b, n, k, i, j, lo, hi),
    decreases hi - mid,
{
    if mid < hi {
        lemma_dot_split(a, b, n, k, i, j, lo, mid, hi - 1);
    }
}

/// Row-major indexing: `(i, j)` maps into `[0, rows * cols)` and back.
pub proof fn lemma_flat_index(i: int, j: int, rows: int, cols: int)
    requires
        0 <= i < rows,
        0 <= j < cols,
    ensures
        0 <= i * cols + j < rows * cols,
        (i * cols + j) / cols == i,
        (i * cols + j) % cols == j,
{
    assert(0 <= i * cols + j < rows * cols) by (nonlinear_arith)
        requires
            0 <= i < rows,
            0 <= j < cols,
    ;
    vstd::arithmetic::div_mod::lemma_fundamental_div_mod_converse(i * cols + j, cols, i, j);
}

/// A flat index `p` of a matrix with `cols` columns lies in row `p / cols`.
pub proof fn lemma_row_of(p: int, rows: int, cols: int)
    requires
        0 <= p < rows * cols,
        0 <= cols,
    ensures
        0 < cols,
        0 <= p / cols < rows,
        0 <= p % cols < cols,
        p == cols * (p / cols) + p % cols,
{
    assert(cols != 0) by (nonlinear_arith)
        requires
            0 <= p < rows * cols,
    ;
    vstd::arithmetic::div_mod::lemma_fundamental_div_mod(p, cols);
    vstd::arithmetic::div_mod::lemma_div_pos_is_pos(p, cols);
    vstd::arithmetic::div_mod::lemma_mod_bound(p, cols);
    let q = p / cols;
    let r = p % cols;
    assert(q < rows) by (nonlinear_arith)
        requires
            p == cols * q + r,
            0 <= r,
            p < rows * cols,
            0 < cols,
    ;
}

/// The value of entry `(i, j)` of the product, read from the sequence model.
pub proof fn lemma_product_entry(a: Seq<i32>, b: Seq<i32>, m: nat, n: nat, k: nat, i: int, j: int)
    requires
        0 <= i < m,
        0 <= j < n,
    ensures
        0 <= i * n + j < m * n,
        product(a, b, m, n, k)[i * n + j] == dot(a, b, n as int, k as int, i, j, 0, k as int),
{
    lemma_flat_index(i, j, m as int, n as int);
}

} // verus!

verus! {

/// The kernels of the suite; each computes the same product.
#[derive(PartialEq, Eq, Structural, Clone, Copy, Debug)]
pub enum KernelVariant {
    Naive,
    Tiled,
    Vectorized,
    Parallel,
    Optimized,
    Blas,
    Gpu,
}

impl KernelVariant {
    /// `C = A x B` by this kernel. Every entry of `c` is overwritten.
    pub fn run(&self, a: &Vec<i32>, b: &Vec<i32>, c: &mut Vec<i128>, m: usize, n: usize, k: usize)
        requires
            shapes_agree(a@, b@, old(c)@.len(), m as nat, n as nat, k as nat),
        ensures
            as_ints(final(c)@) == product(a@, b@, m as nat, n as nat, k as nat),
    {
        match self {
            KernelVariant::Naive => naive::matmul(a, b, c, m, n, k),
            KernelVariant::Tiled => tiled::matmul(a, b, c, m, n, k),
            KernelVariant::Vectorized => vectorized::matmul(a, b, c, m, n, k),
            KernelVariant::Parallel => parallel::matmul(a, b, c, m, n, k),
            KernelVariant::Optimized => optimized::matmul(a, b, c, m, n, k),
            KernelVariant::Blas => blis::matmul(a, b, c, m, n, k),
            KernelVariant::Gpu => gpu::matmul(a, b, c, m, n, k),
        }
    }

    /// The number of timed runs of this kernel when `configured` are asked
    /// for: one for the baseline, at least one for any other.
    pub fn timed_runs(&self, configured: usize) -> (r: usize)
        ensures
            *self == KernelVariant::Naive ==> r == 1,
            *self != KernelVariant::Naive ==> r == if configured == 0 { 1 } else { configured },
    {
        if *self == KernelVariant::Naive || configured == 0 {
            1
        } else {
            configured
        }
    }
}

/// A buffer of `len` zeros.
pub fn zeros(len: usize) -> (r: Vec<i128>)
    ensures
        r@.len() == len,
        forall|p: int| 0 <= p < len ==> #[trigger] r@[p] == 0,
{
    let mut r: Vec<i128> = Vec::new();
    for p in 0..len
        invariant
            r@.len() == p,
            forall|q: int| 0 <= q < p ==> #[trigger] r@[q] == 0,
    {
        r.push(0);
    }
    r
}

/// Two buffers that each hold the product of the same operands are equal:
/// every kernel gives the reference kernel's result, on every shape.
pub proof fn lemma_kernels_agree(c1: Seq<i128>, c2: Seq<i128>, a: Seq<i32>, b: Seq<i32>, m: nat, n: nat, k: nat)
    requires
        as_ints(c1) == product(a, b, m, n, k),
        as_ints(c2) == product(a, b, m, n, k),
    ensures
        c1 == c2,
{
    assert(as_ints(c1).len() == c1.len());
    assert(as_ints(c2).len() == c2.len());
    assert forall|p: int| 0 <= p < c1.len() implies c1[p] == c2[p] by {
        assert(as_ints(c1)[p] == c1[p] as int);
        assert(as_ints(c2)[p] == c2[p] as int);
    }
    assert(c1 =~= c2);
}

} // verus!
