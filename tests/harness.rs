use gemm_bench::bench::{
    init_matrices, mean_nanos, memory_bytes, speedup, total_ops, BenchmarkResults, Metrics, Ratio, Shape, PEAK_GFLOPS,
};
use gemm_bench::matmul::gpu::{DeviceEvent, DeviceSession, DeviceStep};
use gemm_bench::matmul::gpu::DeviceEvent::{Failed, Succeeded};
use gemm_bench::matmul::gpu::{device_buffer_len, fallback_matmul};
use gemm_bench::matmul::naive;
use gemm_bench::validate::{compute_correctness, compute_hash, max_abs_error, passes};

#[test]
fn mean_of_samples() {
    assert_eq!(mean_nanos(&vec![10, 20, 30]), 20);
    assert_eq!(mean_nanos(&vec![1, 2]), 1);
    assert_eq!(mean_nanos(&vec![u64::MAX, u64::MAX]), u64::MAX);
}

#[test]
fn speedup_ratio() {
    assert_eq!(speedup(300, 100), Ratio { num: 300, den: 100 });
    let same = speedup(250, 250);
    assert_eq!(same.num, same.den);
}

#[test]
fn operation_and_byte_counts() {
    let s = Shape::new(2, 3, 4).unwrap();
    assert_eq!(total_ops(s), 48);
    assert_eq!(memory_bytes(s), 4 * (8 + 12 + 6));
    let big = Shape::new(1 << 21, 1 << 21, 1 << 21).unwrap();
    assert_eq!(total_ops(big), 1u128 << 64);
}

#[test]
fn metrics_for_a_run_of_size_64() {
    let s = Shape::new(64, 64, 64).unwrap();
    let (a, b) = init_matrices(s.m, s.n, s.k);
    let (c_opt, _, max_error) = compute_correctness(&a, &b, s);
    let results = BenchmarkResults {
        opt_time: 1000,
        naive_time: 8000,
        blas_time: 2000,
        tiled_time: 4000,
        vectorized_time: 1600,
        parallel_time: 500,
    };
    let m = Metrics::from_results(results, compute_hash(&c_opt), max_error, s);
    assert_eq!(m.latency_nanos, 1000);
    assert_eq!(m.throughput_gflops, Ratio { num: 524288, den: 1000 });
    assert!(m.throughput_gflops.num > 0 && m.throughput_gflops.den > 0);
    assert_eq!(m.ops_per_second, Ratio { num: 524288 * 1_000_000_000, den: 1000 });
    assert_eq!(m.max_error, 0);
    assert!(m.correctness);
    assert_eq!(m.output_hash.len(), 64);
    assert_eq!(m.workload_info.total_ops, 524288);
    assert_eq!(m.workload_info.memory_bytes, 4 * (4096 + 4096 + 4096));
    let p = m.performance_analysis;
    for r in [p.speedup_vs_naive, p.blas_speedup, p.tiled_speedup, p.vectorized_speedup, p.parallel_speedup] {
        assert_eq!(r.num, 8000);
        assert!(r.den > 0);
    }
    assert_eq!(p.tiled_speedup, Ratio { num: 8000, den: 4000 });
    assert_eq!(p.parallel_speedup, Ratio { num: 8000, den: 500 });
    assert_eq!(p.memory_bandwidth_gbps, Ratio { num: 49152, den: 1000 });
    assert_eq!(p.compute_efficiency, Ratio { num: 524288, den: 1000 * PEAK_GFLOPS });
}

#[test]
fn failed_correctness_is_reported() {
    let s = Shape::new(1, 1, 1).unwrap();
    let results = BenchmarkResults {
        opt_time: 1,
        naive_time: 1,
        blas_time: 1,
        tiled_time: 1,
        vectorized_time: 1,
        parallel_time: 1,
    };
    let m = Metrics::from_results(results, String::new(), 10, s);
    assert!(!m.correctness);
    assert_eq!(m.performance_analysis.speedup_vs_naive, Ratio { num: 1, den: 1 });
}

fn drive(outcomes: &[DeviceEvent]) -> (DeviceSession, Vec<DeviceStep>) {
    let mut s = DeviceSession::new();
    let mut steps = vec![s.step];
    let mut i = 0;
    while s.step != DeviceStep::Finished {
        let e = if i < outcomes.len() { outcomes[i] } else { DeviceEvent::Succeeded };
        i += 1;
        steps.push(s.next(e));
    }
    (s, steps)
}

#[test]
fn device_unavailable_falls_back() {
    let (s, steps) = drive(&[DeviceEvent::Failed]);
    assert_eq!(steps, vec![DeviceStep::OpenDevice, DeviceStep::RunFallback, DeviceStep::Finished]);
    assert_eq!(s.acquired, 0);
    assert_eq!(s.released, 0);
}

#[test]
fn device_success_path_releases_everything() {
    let (s, steps) = drive(&[]);
    assert_eq!(
        steps,
        vec![
            DeviceStep::OpenDevice,
            DeviceStep::Allocate(0),
            DeviceStep::Allocate(1),
            DeviceStep::Allocate(2),
            DeviceStep::RunOnDevice,
            DeviceStep::Free(0),
            DeviceStep::Free(1),
            DeviceStep::Free(2),
            DeviceStep::CloseDevice,
            DeviceStep::Finished,
        ]
    );
    assert_eq!(s.acquired, 4);
    assert_eq!(s.released, 4);
}

#[test]
fn allocation_failure_releases_and_falls_back() {
    let (s, steps) = drive(&[Succeeded, Succeeded, Failed, Succeeded]);
    assert_eq!(
        steps,
        vec![
            DeviceStep::OpenDevice,
            DeviceStep::Allocate(0),
            DeviceStep::Allocate(1),
            DeviceStep::Allocate(2),
            DeviceStep::Free(0),
            DeviceStep::Free(2),
            DeviceStep::CloseDevice,
            DeviceStep::RunFallback,
            DeviceStep::Finished,
        ]
    );
    assert!(!steps.contains(&DeviceStep::RunOnDevice));
    assert_eq!(s.acquired, s.released);
}

#[test]
fn repeated_failures_leak_nothing() {
    let patterns: [&[DeviceEvent]; 5] = [
        &[Failed],
        &[Succeeded, Failed, Failed, Failed],
        &[Succeeded, Failed, Succeeded, Succeeded],
        &[Succeeded, Succeeded, Succeeded, Failed],
        &[Succeeded, Failed, Succeeded, Failed],
    ];
    let (mut acquired, mut released) = (0u64, 0u64);
    for round in 0..100 {
        let (s, steps) = drive(patterns[round % patterns.len()]);
        assert_eq!(steps[steps.len() - 2], DeviceStep::RunFallback);
        assert!(!s.device_open);
        acquired += s.acquired;
        released += s.released;
    }
    assert_eq!(acquired, released);
    assert!(acquired > 0);
}

#[test]
fn device_failure_result_matches_host_kernel() {
    let (m, n, k) = (5, 7, 3);
    let (a, b) = init_matrices(m, n, k);
    let mut expected = vec![0i128; m * n];
    naive::matmul(&a, &b, &mut expected, m, n, k);
    let mut s = DeviceSession::new();
    let mut c = vec![-9i128; m * n];
    let mut step = s.step;
    let mut fallbacks = 0;
    while step != DeviceStep::Finished {
        if step == DeviceStep::RunFallback {
            fallback_matmul(&a, &b, &mut c, m, n, k);
            fallbacks += 1;
        }
        let e = if step == DeviceStep::Allocate(1) { Failed } else { Succeeded };
        step = s.next(e);
    }
    assert_eq!(fallbacks, 1);
    assert_eq!(max_abs_error(&c, &expected), 0);
    assert!(passes(max_abs_error(&c, &expected)));
    assert_eq!(s.acquired, s.released);
}

#[test]
fn device_buffers_mirror_host_buffers() {
    let s = Shape::new(2, 3, 5).unwrap();
    assert_eq!(device_buffer_len(0, s), 10);
    assert_eq!(device_buffer_len(1, s), 15);
    assert_eq!(device_buffer_len(2, s), 6);
}
