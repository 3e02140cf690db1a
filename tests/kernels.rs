use gemm_bench::bench::{init_matrices, Shape};
use gemm_bench::matmul::gpu::{fallback_matmul, launch_grid};
use gemm_bench::matmul::tiled::{block_end, matmul_blocked};
use gemm_bench::matmul::{blis, gpu, naive, optimized, parallel, tiled, vectorized, zeros, KernelVariant};

const ALL: [KernelVariant; 7] = [
    KernelVariant::Naive,
    KernelVariant::Tiled,
    KernelVariant::Vectorized,
    KernelVariant::Parallel,
    KernelVariant::Optimized,
    KernelVariant::Blas,
    KernelVariant::Gpu,
];

fn reference(a: &[i32], b: &[i32], m: usize, n: usize, k: usize) -> Vec<i128> {
    let mut c = vec![0i128; m * n];
    for i in 0..m {
        for j in 0..n {
            for l in 0..k {
                c[i * n + j] += a[i * k + l] as i128 * b[l * n + j] as i128;
            }
        }
    }
    c
}

fn pattern(len: usize, seed: i64) -> Vec<i32> {
    (0..len as i64).map(|i| ((i * 37 + seed * 11) % 201 - 100) as i32).collect()
}

fn run(v: KernelVariant, a: &Vec<i32>, b: &Vec<i32>, m: usize, n: usize, k: usize) -> Vec<i128> {
    // Filled with garbage so that a kernel that skips an entry is caught.
    let mut c = vec![12345i128; m * n];
    v.run(a, b, &mut c, m, n, k);
    c
}

#[test]
fn naive_two_by_two() {
    let a = vec![1, 2, 3, 4];
    let b = vec![5, 6, 7, 8];
    let mut c = vec![0i128; 4];
    naive::matmul(&a, &b, &mut c, 2, 2, 2);
    assert_eq!(c, vec![19, 22, 43, 50]);
}

#[test]
fn rectangular_product_exact() {
    // A: 2x3, B: 3x1
    let a = vec![1, -2, 3, 4, 5, -6];
    let b = vec![7, 8, 9];
    for v in ALL {
        assert_eq!(run(v, &a, &b, 2, 1, 3), vec![1 * 7 - 2 * 8 + 3 * 9, 4 * 7 + 5 * 8 - 6 * 9], "{:?}", v);
    }
}

#[test]
fn extreme_entries_do_not_overflow() {
    let k = 3;
    let a = vec![i32::MIN; k];
    let b = vec![i32::MIN; k];
    let expected = 3 * (i32::MIN as i128) * (i32::MIN as i128);
    for v in ALL {
        assert_eq!(run(v, &a, &b, 1, 1, k), vec![expected], "{:?}", v);
    }
}

#[test]
fn all_variants_match_naive_on_unaligned_shapes() {
    for &(m, n, k) in &[(1, 1, 1), (3, 5, 7), (65, 33, 70), (31, 66, 5), (64, 64, 64), (2, 129, 3)] {
        let a = pattern(m * k, 1);
        let b = pattern(k * n, 2);
        let expected = reference(&a, &b, m, n, k);
        for v in ALL {
            assert_eq!(run(v, &a, &b, m, n, k), expected, "{:?} on {}x{}x{}", v, m, n, k);
        }
    }
}

#[test]
fn tiny_shape_smaller_than_any_block() {
    let (m, n, k) = (2, 3, 1);
    let (a, b) = init_matrices(m, n, k);
    let mut c_naive = vec![0i128; m * n];
    naive::matmul(&a, &b, &mut c_naive, m, n, k);
    let mut c_tiled = vec![-1i128; m * n];
    tiled::matmul(&a, &b, &mut c_tiled, m, n, k);
    let mut c_vec = vec![-1i128; m * n];
    vectorized::matmul(&a, &b, &mut c_vec, m, n, k);
    assert_eq!(c_tiled, c_naive);
    assert_eq!(c_vec, c_naive);
    // a = [0, 7], b = [0, 11, 22]
    assert_eq!(c_naive, vec![0, 0, 0, 0, 77, 154]);
}

#[test]
fn module_kernels_match_reference() {
    let (m, n, k) = (37, 41, 67);
    let a = pattern(m * k, 3);
    let b = pattern(k * n, 4);
    let expected = reference(&a, &b, m, n, k);
    let kernels: [fn(&Vec<i32>, &Vec<i32>, &mut Vec<i128>, usize, usize, usize); 7] = [
        naive::matmul,
        tiled::matmul,
        vectorized::matmul,
        parallel::matmul,
        optimized::matmul,
        blis::matmul,
        gpu::matmul,
    ];
    for f in kernels {
        let mut c = vec![7i128; m * n];
        f(&a, &b, &mut c, m, n, k);
        assert_eq!(c, expected);
    }
    let mut c = vec![7i128; m * n];
    fallback_matmul(&a, &b, &mut c, m, n, k);
    assert_eq!(c, expected);
}

#[test]
fn blocked_with_any_block_size() {
    let (m, n, k) = (9, 10, 11);
    let a = pattern(m * k, 5);
    let b = pattern(k * n, 6);
    let expected = reference(&a, &b, m, n, k);
    for block in 1..13 {
        let mut c = vec![3i128; m * n];
        matmul_blocked(&a, &b, &mut c, m, n, k, block);
        assert_eq!(c, expected, "block {}", block);
    }
}

#[test]
fn block_end_clips_at_the_border() {
    assert_eq!(block_end(0, 64, 100), 64);
    assert_eq!(block_end(64, 64, 100), 100);
    assert_eq!(block_end(96, 4, 100), 100);
    assert_eq!(block_end(90, 4, 100), 94);
}

#[test]
fn launch_grid_covers_output() {
    assert_eq!(launch_grid(64, 64), (2, 2));
    assert_eq!(launch_grid(65, 1), (1, 3));
    assert_eq!(launch_grid(1, 33), (2, 1));
}

#[test]
fn zeros_is_all_zero() {
    assert_eq!(zeros(5), vec![0i128; 5]);
    assert!(zeros(0).is_empty());
}

#[test]
fn naive_takes_one_timed_run() {
    assert_eq!(KernelVariant::Naive.timed_runs(5), 1);
    assert_eq!(KernelVariant::Tiled.timed_runs(5), 5);
    assert_eq!(KernelVariant::Parallel.timed_runs(0), 1);
}

#[test]
fn shape_validation() {
    assert_eq!(Shape::new(2, 3, 4), Some(Shape { m: 2, n: 3, k: 4 }));
    assert_eq!(Shape::new(0, 3, 4), None);
    assert_eq!(Shape::new(2, 0, 4), None);
    assert_eq!(Shape::new(2, 3, 0), None);
    assert_eq!(Shape::new(usize::MAX, 2, 1), None);
    assert_eq!(Shape::new(usize::MAX / 8, 2, 1), None);
    assert_eq!(Shape::default_workload(), Shape { m: 1024, n: 1024, k: 1024 });
}

#[test]
fn generated_inputs_follow_the_pattern() {
    let (a, b) = init_matrices(2, 3, 20);
    assert_eq!(a.len(), 40);
    assert_eq!(b.len(), 60);
    assert_eq!(&a[..5], &[0, 7, 14, 21, 28]);
    assert_eq!(a[15], 5);
    assert_eq!(&b[..4], &[0, 11, 22, 33]);
    assert_eq!(b[10], 10);
    let (a2, b2) = init_matrices(2, 3, 20);
    assert_eq!(a, a2);
    assert_eq!(b, b2);
}
