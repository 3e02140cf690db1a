//! The arithmetic of a benchmark run: the workload shape, the generated
//! operands, mean latencies, and the derived metrics.
//!
//! Operands are fixed-point numbers in hundredths, so product entries are in
//! ten-thousandths. Latencies are whole nanoseconds, and each derived metric
//! is an exact ratio of integers.
use vstd::prelude::*;

verus! {

/// A workload shape `(m, n, k)`: `A` is `m x k`, `B` is `k x n`, `C` is `m x n`.
#[derive(PartialEq, Eq, Structural, Clone, Copy, Debug)]
pub struct Shape {
    pub m: usize,
    pub n: usize,
    pub k: usize,
}

impl Shape {
    /// Every dimension is positive and every buffer of the run, including
    /// the 16-byte-per-entry image of `C`, can be addressed.
    pub open spec fn valid(&self) -> bool {
        &&& self.m > 0
        &&& self.n > 0
        &&& self.k > 0
        &&& self.m * self.k <= usize::MAX
        &&& self.k * self.n <= usize::MAX
        &&& 16 * (self.m * self.n) <= usize::MAX
    }

    /// The shape `(m, n, k)` when it is valid, `None` otherwise.
    pub fn new(m: usize, n: usize, k: usize) -> (r: Option<Shape>)
        ensures
            r is Some <==> (Shape { m, n, k }).valid(),
            r is Some ==> r->Some_0 == (Shape { m, n, k }),
    {
        if m == 0 || n == 0 || k == 0 {
            return None;
        }
        let mk = m.checked_mul(k);
        let kn = k.checked_mul(n);
        let mn = m.checked_mul(n);
        match (mk, kn, mn) {
            (Some(_), Some(_), Some(x)) => {
                match x.checked_mul(16) {
                    Some(_) => Some(Shape { m, n, k }),
                    None => None,
                }
            },
            _ => None,
        }
    }

    /// The shape of a run with no workload given: `1024 x 1024 x 1024`.
    pub fn default_workload() -> (r: Shape)
        ensures
            r == (Shape { m: 1024, n: 1024, k: 1024 }),
            r.valid(),
    {
        Shape { m: 1024, n: 1024, k: 1024 }
    }
}

/// Entry `i` of the generated `A`, in hundredths: `(7 i) mod 100`.
pub open spec fn gen_a(i: int) -> int {
    (7 * i) % 100
}

/// Entry `i` of the generated `B`, in hundredths: `(11 i) mod 100`.
pub open spec fn gen_b(i: int) -> int {
    (11 * i) % 100
}

/// The operands of a run, `A` (`m x k`) and `B` (`k x n`), from a fixed
/// pattern; the same shape always gives the same operands.
pub fn init_matrices(m: usize, n: usize, k: usize) -> (r: (Vec<i32>, Vec<i32>))
    requires
        m * k <= usize::MAX,
        k * n <= usize::MAX,
    ensures
        r.0@.len() == m * k,
        r.1@.len() == k * n,
        forall|i: int| 0 <= i < m * k ==> #[trigger] r.0@[i] == gen_a(i),
        forall|i: int| 0 <= i < k * n ==> #[trigger] r.1@[i] == gen_b(i),
{
    let len_a = m * k;
    let len_b = k * n;
    let mut a: Vec<i32> = Vec::new();
    for i in 0..len_a
        invariant
            a@.len() == i,
            forall|j: int| 0 <= j < i ==> #[trigger] a@[j] == gen_a(j),
    {
        a.push(((i % 100) * 7 % 100) as i32);
        proof {
            vstd::arithmetic::div_mod::lemma_mul_mod_noop_right(7, i as int, 100);
        }
    }
    let mut b: Vec<i32> = Vec::new();
    for i in 0..len_b
        invariant
            b@.len() == i,
            forall|j: int| 0 <= j < i ==> #[trigger] b@[j] == gen_b(j),
    {
        b.push(((i % 100) * 11 % 100) as i32);
        proof {
            vstd::arithmetic::div_mod::lemma_mul_mod_noop_right(11, i as int, 100);
        }
    }
    (a, b)
}

/// The sum of the first `len` samples.
pub open spec fn sum_of(s: Seq<u64>, len: int) -> int
    decreases len,
{
    if len <= 0 { 0 } else { sum_of(s, len - 1) + s[len - 1] }
}

proof fn lemma_sum_bound(s: Seq<u64>, len: int)
    requires
        0 <= len <= s.len(),
    ensures
        0 <= sum_of(s, len) <= len * 0xffff_ffff_ffff_ffff,
    decreases len,
{
    if len > 0 {
        lemma_sum_bound(s, len - 1);
    }
}

/// The arithmetic mean of the timed samples, in whole nanoseconds (rounded
/// down).
pub fn mean_nanos(samples: &Vec<u64>) -> (r: u64)
    requires
        samples@.len() > 0,
    ensures
        r == sum_of(samples@, samples@.len() as int) / (samples@.len() as int),
{
    let mut total: u128 = 0;
    for i in 0..samples.len()
        invariant
            total == sum_of(samples@, i as int),
    {
        proof {
            lemma_sum_bound(samples@, i as int + 1);
            assert((i as int + 1) * 0xffff_ffff_ffff_ffff <= 0x1_0000_0000_0000_0000 * 0xffff_ffff_ffff_ffff)
                by (nonlinear_arith)
                requires
                    i < 0x1_0000_0000_0000_0000,
            ;
        }
        total = total + samples[i] as u128;
    }
    let len = samples.len() as u128;
    proof {
        let s = sum_of(samples@, samples@.len() as int);
        lemma_sum_bound(samples@, samples@.len() as int);
        vstd::arithmetic::div_mod::lemma_div_is_ordered(s, len * 0xffff_ffff_ffff_ffff, len as int);
        vstd::arithmetic::div_mod::lemma_div_multiples_vanish(0xffff_ffff_ffff_ffff, len as int);
        assert(len * 0xffff_ffff_ffff_ffff == 0xffff_ffff_ffff_ffff * len) by (nonlinear_arith);
    }
    (total / len) as u64
}

/// An exact ratio `num / den` of two integers.
#[derive(PartialEq, Eq, Structural, Clone, Copy, Debug)]
pub struct Ratio {
    pub num: u128,
    pub den: u128,
}

impl Ratio {
    /// The ratio stands for the number one.
    pub open spec fn is_one(&self) -> bool {
        self.den > 0 && self.num == self.den
    }
}

/// `naive / variant`: how many times faster a variant is than the baseline,
/// from their mean latencies.
pub fn speedup(naive_nanos: u64, variant_nanos: u64) -> (r: Ratio)
    ensures
        r == (Ratio { num: naive_nanos as u128, den: variant_nanos as u128 }),
{
    Ratio { num: naive_nanos as u128, den: variant_nanos as u128 }
}

/// The speedup of the baseline over itself is one, whenever its latency is
/// positive.
pub proof fn lemma_baseline_speedup_is_one(naive_nanos: u64)
    requires
        naive_nanos > 0,
    ensures
        (Ratio { num: naive_nanos as u128, den: naive_nanos as u128 }).is_one(),
{
}

/// The number of floating-point operations of a product: `2 m n k`.
pub open spec fn total_ops_spec(s: Shape) -> int {
    2 * s.m * s.n * s.k
}

/// The bytes that the three matrices of a run take at `4` bytes per entry.
pub open spec fn memory_bytes_spec(s: Shape) -> int {
    4 * (s.m * s.k + s.k * s.n + s.m * s.n)
}

proof fn lemma_ops_fit(x: int, y: int, z: int)
    requires
        1 <= x <= y,
        x <= z,
        x * y <= usize::MAX,
        y * z <= usize::MAX,
    ensures
        x * y * z <= 0x1_0000_0000_0000_0000_0000_0000,
{
    assert(x <= 0x1_0000_0000) by (nonlinear_arith)
        requires
            1 <= x <= y,
            x * y <= usize::MAX,
    ;
    assert(x * y * z == x * (y * z)) by (nonlinear_arith);
    assert(x * (y * z) <= 0x1_0000_0000 * 0x1_0000_0000_0000_0000) by (nonlinear_arith)
        requires
            1 <= x <= 0x1_0000_0000,
            0 <= y * z <= usize::MAX,
    ;
}

/// `2 m n k`.
pub fn total_ops(s: Shape) -> (r: u128)
    requires
        s.valid(),
    ensures
        r == total_ops_spec(s),
        r <= 0x2_0000_0000_0000_0000_0000_0000,
{
    let m = s.m as u128;
    let n = s.n as u128;
    let k = s.k as u128;
    proof {
        assert(s.m * s.n <= usize::MAX) by (nonlinear_arith)
            requires
                16 * (s.m * s.n) <= usize::MAX,
        ;
        if s.m <= s.n && s.m <= s.k {
            lemma_ops_fit(s.m as int, s.n as int, s.k as int);
        } else if s.n <= s.k {
            lemma_ops_fit(s.n as int, s.k as int, s.m as int);
            assert(s.n * s.k * s.m == s.m * s.n * s.k) by (nonlinear_arith);
        } else {
            lemma_ops_fit(s.k as int, s.m as int, s.n as int);
            assert(s.k * s.m * s.n == s.m * s.n * s.k) by (nonlinear_arith);
        }
        assert(m * n * k == s.m * s.n * s.k);
        assert(2 * s.m * s.n * s.k == 2 * (s.m * s.n * s.k)) by (nonlinear_arith);
    }
    2 * (m * n * k)
}

/// `4 (m k + k n + m n)`.
pub fn memory_bytes(s: Shape) -> (r: u128)
    requires
        s.valid(),
    ensures
        r == memory_bytes_spec(s),
{
    let mk = (s.m * s.k) as u128;
    let kn = (s.k * s.n) as u128;
    let mn = (s.m * s.n) as u128;
    4 * (mk + kn + mn)
}

/// The mean latency of each kernel of a run, in nanoseconds.
#[derive(PartialEq, Eq, Structural, Clone, Copy, Debug)]
pub struct BenchmarkResults {
    pub opt_time: u64,
    pub naive_time: u64,
    pub blas_time: u64,
    pub tiled_time: u64,
    pub vectorized_time: u64,
    pub parallel_time: u64,
}

/// The shape of a run and what it costs.
#[derive(PartialEq, Eq, Structural, Clone, Copy, Debug)]
pub struct WorkloadInfo {
    pub m: usize,
    pub n: usize,
    pub k: usize,
    pub total_ops: u128,
    pub memory_bytes: u128,
}

/// The ratios of a run: speedups over the baseline, bandwidth in GB/s and
/// throughput over a reference peak of `PEAK_GFLOPS`.
#[derive(PartialEq, Eq, Structural, Clone, Copy, Debug)]
pub struct PerformanceAnalysis {
    pub speedup_vs_naive: Ratio,
    pub blas_speedup: Ratio,
    pub tiled_speedup: Ratio,
    pub vectorized_speedup: Ratio,
    pub parallel_speedup: Ratio,
    pub memory_bandwidth_gbps: Ratio,
    pub compute_efficiency: Ratio,
}

/// The report of a run.
pub struct Metrics {
    /// The mean latency of the optimized kernel, in nanoseconds.
    pub latency_nanos: u64,
    pub throughput_gflops: Ratio,
    pub ops_per_second: Ratio,
    pub output_hash: String,
    pub max_error: u128,
    pub correctness: bool,
    pub workload_info: WorkloadInfo,
    pub performance_analysis: PerformanceAnalysis,
}

/// The reference peak that `compute_efficiency` divides by, in GFLOP/s.
pub const PEAK_GFLOPS: u128 = 100;

impl Metrics {
    /// The report of a run from its mean latencies, the fingerprint and the
    /// largest error of the optimized kernel's result. Throughput and
    /// bandwidth are measured at the optimized kernel's latency `t` (ns):
    /// GFLOP/s is `ops / t`, operations per second `ops * 10^9 / t`, GB/s
    /// `bytes / t`; each speedup is `naive_time / time`.
    pub fn from_results(results: BenchmarkResults, output_hash: String, max_error: u128, s: Shape) -> (r: Metrics)
        requires
            s.valid(),
        ensures
            r.latency_nanos == results.opt_time,
            r.throughput_gflops == (Ratio { num: total_ops_spec(s) as u128, den: results.opt_time as u128 }),
            r.ops_per_second == (Ratio { num: (total_ops_spec(s) * 1_000_000_000) as u128, den: results.opt_time as u128 }),
            r.output_hash == output_hash,
            r.max_error == max_error,
            r.correctness == (max_error < crate::validate::TOLERANCE),
            r.workload_info == (WorkloadInfo {
                m: s.m,
                n: s.n,
                k: s.k,
                total_ops: total_ops_spec(s) as u128,
                memory_bytes: memory_bytes_spec(s) as u128,
            }),
            r.performance_analysis == (PerformanceAnalysis {
                speedup_vs_naive: Ratio { num: results.naive_time as u128, den: results.opt_time as u128 },
                blas_speedup: Ratio { num: results.naive_time as u128, den: results.blas_time as u128 },
                tiled_speedup: Ratio { num: results.naive_time as u128, den: results.tiled_time as u128 },
                vectorized_speedup: Ratio { num: results.naive_time as u128, den: results.vectorized_time as u128 },
                parallel_speedup: Ratio { num: results.naive_time as u128, den: results.parallel_time as u128 },
                memory_bandwidth_gbps: Ratio { num: memory_bytes_spec(s) as u128, den: results.opt_time as u128 },
                compute_efficiency: Ratio { num: total_ops_spec(s) as u128, den: (results.opt_time * PEAK_GFLOPS) as u128 },
            }),
    {
        let ops = total_ops(s);
        let bytes = memory_bytes(s);
        let t = results.opt_time as u128;
        let workload_info = WorkloadInfo { m: s.m, n: s.n, k: s.k, total_ops: ops, memory_bytes: bytes };
        let performance_analysis = PerformanceAnalysis {
            speedup_vs_naive: speedup(results.naive_time, results.opt_time),
            blas_speedup: speedup(results.naive_time, results.blas_time),
            tiled_speedup: speedup(results.naive_time, results.tiled_time),
            vectorized_speedup: speedup(results.naive_time, results.vectorized_time),
            parallel_speedup: speedup(results.naive_time, results.parallel_time),
            memory_bandwidth_gbps: Ratio { num: bytes, den: t },
            compute_efficiency: Ratio { num: ops, den: t * PEAK_GFLOPS },
        };
        Metrics {
            latency_nanos: results.opt_time,
            throughput_gflops: Ratio { num: ops, den: t },
            ops_per_second: Ratio { num: ops * 1_000_000_000, den: t },
            output_hash,
            max_error,
            correctness: crate::validate::passes(max_error),
            workload_info,
            performance_analysis,
        }
    }
}

} // verus!
