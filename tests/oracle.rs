use gemm_bench::bench::{init_matrices, Shape};
use gemm_bench::validate::{abs_diff, compute_correctness, compute_hash, max_abs_error, passes, to_le_bytes, TOLERANCE};

#[test]
fn abs_diff_exact_at_the_extremes() {
    assert_eq!(abs_diff(3, 10), 7);
    assert_eq!(abs_diff(10, 3), 7);
    assert_eq!(abs_diff(-5, 5), 10);
    assert_eq!(abs_diff(i128::MAX, i128::MIN), u128::MAX);
    assert_eq!(abs_diff(i128::MIN, i128::MAX), u128::MAX);
    assert_eq!(abs_diff(i128::MIN, i128::MIN), 0);
}

#[test]
fn max_error_is_largest_difference() {
    let c = vec![1i128, 5, -3, 8];
    let r = vec![1i128, 2, 4, 8];
    assert_eq!(max_abs_error(&c, &r), 7);
    assert_eq!(max_abs_error(&c, &c), 0);
    assert_eq!(max_abs_error(&vec![], &vec![]), 0);
}

#[test]
fn tolerance_is_strict() {
    assert!(passes(0));
    assert!(passes(TOLERANCE - 1));
    assert!(!passes(TOLERANCE));
    assert!(!passes(TOLERANCE + 1));
}

#[test]
fn correctness_on_generated_inputs() {
    let s = Shape::new(64, 64, 64).unwrap();
    let (a, b) = init_matrices(s.m, s.n, s.k);
    let (c_opt, c_naive, max_error) = compute_correctness(&a, &b, s);
    assert_eq!(c_opt, c_naive);
    assert_eq!(max_error, 0);
    assert!(passes(max_error));
}

#[test]
fn le_bytes_layout() {
    let bytes = to_le_bytes(&vec![1i128, -1, 258]);
    assert_eq!(bytes.len(), 48);
    assert_eq!(bytes[0], 1);
    assert!(bytes[1..16].iter().all(|&x| x == 0));
    assert!(bytes[16..32].iter().all(|&x| x == 0xff));
    assert_eq!(&bytes[32..35], &[2, 1, 0]);
}

#[test]
fn hash_known_values() {
    assert_eq!(compute_hash(&vec![]), "e3b0c44298fc1c149afbf4c8996fb92427ae41e4649b934ca495991b7852b855");
    assert_eq!(compute_hash(&vec![0]), "374708fff7719dd5979ec875d56cd2286f6d3cf7ec317a3b25632aab28ec37bb");
    assert_eq!(compute_hash(&vec![1, -1, 258]), "4d4fd9eb64f0201423a57aec76c9b8f83dc4a0be2c03379bb7f4813a0f3026ea");
}

#[test]
fn hash_is_deterministic_and_sensitive() {
    let c = vec![10i128, -20, 30];
    let h1 = compute_hash(&c);
    let h2 = compute_hash(&c.clone());
    assert_eq!(h1, h2);
    assert_eq!(h1.len(), 64);
    let mut flipped = c.clone();
    flipped[1] ^= 1;
    assert_ne!(compute_hash(&flipped), h1);
}
