//! The correctness oracle: the largest entrywise difference between a result
//! and the reference result, and a SHA-256 fingerprint of a result's bytes.
use sha2::Digest;
use vstd::prelude::*;

use crate::bench::Shape;
use crate::matmul::{as_ints, lemma_kernels_agree, product, zeros, KernelVariant};

verus! {

/// The largest error that passes: `1e-3` at the scale of product entries,
/// which are in ten-thousandths.
pub const TOLERANCE: u128 = 10;

/// A result passes when its largest error is strictly below `TOLERANCE`.
pub fn passes(max_error: u128) -> (r: bool)
    ensures
        r == (max_error < TOLERANCE),
{
    max_error < TOLERANCE
}

/// `|x - y|`.
pub open spec fn abs_diff_spec(x: int, y: int) -> int {
    if x >= y { x - y } else { y - x }
}

/// The largest `|c[p] - r[p]|` over the first `len` entries, `0` when `len == 0`.
pub open spec fn max_abs_diff(c: Seq<i128>, r: Seq<i128>, len: int) -> int
    decreases len,
{
    if len <= 0 {
        0
    } else {
        let rest = max_abs_diff(c, r, len - 1);
        let d = abs_diff_spec(c[len - 1] as int, r[len - 1] as int);
        if d > rest { d } else { rest }
    }
}

/// `|x - y|`, exact for any two `i128` values.
pub fn abs_diff(x: i128, y: i128) -> (r: u128)
    ensures
        r == abs_diff_spec(x as int, y as int),
{
    let (hi, lo) = if x >= y { (x, y) } else { (y, x) };
    if lo >= 0 || hi < 0 {
        (hi - lo) as u128
    } else {
        (hi as u128) + ((-(lo + 1)) as u128) + 1
    }
}

/// The largest entrywise absolute difference between `c` and `reference`.
pub fn max_abs_error(c: &Vec<i128>, reference: &Vec<i128>) -> (r: u128)
    requires
        c@.len() == reference@.len(),
    ensures
        r == max_abs_diff(c@, reference@, c@.len() as int),
{
    let mut best: u128 = 0;
    for p in 0..c.len()
        invariant
            c@.len() == reference@.len(),
            best == max_abs_diff(c@, reference@, p as int),
    {
        let d = abs_diff(c[p], reference[p]);
        if d > best {
            best = d;
        }
    }
    best
}

/// `2^(8 t)`.
pub open spec fn pow256(t: nat) -> nat
    decreases t,
{
    if t == 0 { 1 } else { 256 * pow256((t - 1) as nat) }
}

/// The two's complement bits of `x` read as an unsigned number.
pub open spec fn unsigned_bits(x: i128) -> nat {
    if x >= 0 { x as nat } else { (x + 0x1_0000_0000_0000_0000_0000_0000_0000_0000) as nat }
}

/// Byte `t` (from the least significant) of the two's complement of `x`.
pub open spec fn byte_of(x: i128, t: nat) -> u8 {
    ((unsigned_bits(x) / pow256(t)) % 256) as u8
}

/// The little-endian bytes of each entry of `c`, 16 per entry, in order.
pub open spec fn le_bytes(c: Seq<i128>) -> Seq<u8> {
    Seq::new(16 * c.len(), |q: int| byte_of(c[q / 16], (q % 16) as nat))
}

/// The lowercase hexadecimal SHA-256 digest of `bytes`.
pub uninterp spec fn sha256_hex(bytes: Seq<u8>) -> Seq<char>;

/// `c` is a lowercase hexadecimal digit.
pub open spec fn is_lower_hex_digit(c: char) -> bool {
    ('0' <= c <= '9') || ('a' <= c <= 'f')
}

/// Relies on sha2's `Sha256::digest`, a function of the bytes alone, written
/// out by generic-array's `LowerHex`: two lowercase hex digits per digest byte.
#[verifier::external_body]
fn sha256_hex_of(bytes: &Vec<u8>) -> (r: String)
    ensures
        r@ == sha256_hex(bytes@),
        r@.len() == 64,
        forall|i: int| 0 <= i < 64 ==> is_lower_hex_digit(#[trigger] r@[i]),
{
    format!("{:x}", sha2::Sha256::digest(bytes.as_slice()))
}

proof fn lemma_pow256_pos(t: nat)
    ensures
        pow256(t) > 0,
    decreases t,
{
    if t > 0 {
        lemma_pow256_pos((t - 1) as nat);
    }
}

/// Appends the 16 little-endian bytes of `x` to `out`.
fn push_le_bytes(out: &mut Vec<u8>, x: i128)
    ensures
        final(out)@.len() == old(out)@.len() + 16,
        forall|q: int| 0 <= q < old(out)@.len() ==> #[trigger] final(out)@[q] == old(out)@[q],
        forall|t: int| 0 <= t < 16 ==> #[trigger] final(out)@[old(out)@.len() + t] == byte_of(x, t as nat),
{
    let mut u: u128 = if x >= 0 {
        x as u128
    } else {
        ((x + 0x7fff_ffff_ffff_ffff_ffff_ffff_ffff_ffff + 1) as u128) + 0x8000_0000_0000_0000_0000_0000_0000_0000
    };
    let ghost v = unsigned_bits(x);
    let ghost start = out@.len();
    assert(u == v);
    assert(pow256(0) == 1);
    assert(v / 1 == v);
    for t in 0..16
        invariant
            out@.len() == start + t,
            u == v / pow256(t as nat),
            forall|q: int| 0 <= q < start ==> #[trigger] out@[q] == old(out)@[q],
            start == old(out)@.len(),
            v == unsigned_bits(x),
            forall|s: int| 0 <= s < t ==> #[trigger] out@[start + s] == byte_of(x, s as nat),
    {
        proof {
            lemma_pow256_pos(t as nat);
            vstd::arithmetic::div_mod::lemma_div_denominator(v as int, pow256(t as nat) as int, 256);
            assert(pow256((t + 1) as nat) == 256 * pow256(t as nat));
            assert(pow256(t as nat) * 256 == 256 * pow256(t as nat)) by (nonlinear_arith);
        }
        out.push((u % 256) as u8);
        u = u / 256;
    }
}

/// The little-endian bytes of every entry of `c`, 16 per entry, in order.
pub fn to_le_bytes(c: &Vec<i128>) -> (r: Vec<u8>)
    requires
        16 * c@.len() <= usize::MAX,
    ensures
        r@ == le_bytes(c@),
{
    let mut out: Vec<u8> = Vec::new();
    for p in 0..c.len()
        invariant
            out@.len() == 16 * p,
            forall|q: int| 0 <= q < 16 * p ==> #[trigger] out@[q] == le_bytes(c@)[q],
    {
        let ghost before = out@;
        push_le_bytes(&mut out, c[p]);
        proof {
            assert forall|q: int| 0 <= q < 16 * (p + 1) implies #[trigger] out@[q] == le_bytes(c@)[q] by {
                if q >= 16 * p {
                    let t = q - 16 * p;
                    assert(out@[before.len() + t] == byte_of(c@[p as int], t as nat));
                    assert(q / 16 == p as int && q % 16 == t) by {
                        vstd::arithmetic::div_mod::lemma_fundamental_div_mod_converse(q, 16, p as int, t);
                    }
                } else {
                    assert(out@[q] == before[q]);
                }
            }
        }
    }
    assert(out@ =~= le_bytes(c@));
    out
}

/// The fingerprint of a result: the SHA-256 digest, in lowercase hex, of the
/// little-endian bytes of its entries.
pub fn compute_hash(matrix: &Vec<i128>) -> (r: String)
    requires
        16 * matrix@.len() <= usize::MAX,
    ensures
        r@ == sha256_hex(le_bytes(matrix@)),
        r@.len() == 64,
        forall|i: int| 0 <= i < 64 ==> is_lower_hex_digit(#[trigger] r@[i]),
{
    let bytes = to_le_bytes(matrix);
    sha256_hex_of(&bytes)
}

/// Runs the optimized kernel and the reference kernel on the same operands
/// and returns both results and the largest entrywise difference.
pub fn compute_correctness(a: &Vec<i32>, b: &Vec<i32>, s: Shape) -> (r: (Vec<i128>, Vec<i128>, u128))
    requires
        s.valid(),
        a@.len() == s.m * s.k,
        b@.len() == s.k * s.n,
    ensures
        as_ints(r.0@) == product(a@, b@, s.m as nat, s.n as nat, s.k as nat),
        as_ints(r.1@) == product(a@, b@, s.m as nat, s.n as nat, s.k as nat),
        r.2 == max_abs_diff(r.0@, r.1@, r.0@.len() as int),
        r.2 == 0,
{
    proof {
        assert(s.m * s.n <= usize::MAX) by (nonlinear_arith)
            requires
                16 * (s.m * s.n) <= usize::MAX,
        ;
    }
    let mut c_opt = zeros(s.m * s.n);
    let mut c_naive = zeros(s.m * s.n);
    KernelVariant::Optimized.run(a, b, &mut c_opt, s.m, s.n, s.k);
    KernelVariant::Naive.run(a, b, &mut c_naive, s.m, s.n, s.k);
    proof {
        lemma_kernels_agree(c_opt@, c_naive@, a@, b@, s.m as nat, s.n as nat, s.k as nat);
    }
    let max_error = max_abs_error(&c_opt, &c_naive);
    proof {
        lemma_max_abs_diff_self(c_opt@, c_opt@.len() as int);
    }
    (c_opt, c_naive, max_error)
}

/// A buffer differs from itself by nothing.
pub proof fn lemma_max_abs_diff_self(c: Seq<i128>, len: int)
    ensures
        max_abs_diff(c, c, len) == 0,
    decreases len,
{
    if len > 0 {
        lemma_max_abs_diff_self(c, len - 1);
    }
}

/// Any two kernels of the suite, run on the same operands, differ by less
/// than the tolerance: their largest entrywise difference is zero.
pub proof fn lemma_variants_within_tolerance(
    c1: Seq<i128>,
    c2: Seq<i128>,
    a: Seq<i32>,
    b: Seq<i32>,
    m: nat,
    n: nat,
    k: nat,
)
    requires
        as_ints(c1) == product(a, b, m, n, k),
        as_ints(c2) == product(a, b, m, n, k),
    ensures
        max_abs_diff(c1, c2, c1.len() as int) == 0,
        max_abs_diff(c1, c2, c1.len() as int) < TOLERANCE,
{
    lemma_kernels_agree(c1, c2, a, b, m, n, k);
    lemma_max_abs_diff_self(c1, c1.len() as int);
}

/// Fingerprinting depends on the contents alone: equal buffers have equal
/// fingerprints.
pub proof fn lemma_fingerprint_deterministic(c1: Seq<i128>, c2: Seq<i128>)
    requires
        c1 == c2,
    ensures
        sha256_hex(le_bytes(c1)) == sha256_hex(le_bytes(c2)),
{
}

proof fn lemma_high_bytes_agree(x: i128, y: i128, t: nat)
    requires
        t <= 16,
        forall|t: nat| t < 16 ==> #[trigger] byte_of(x, t) == byte_of(y, t),
    ensures
        unsigned_bits(x) / pow256(t) == unsigned_bits(y) / pow256(t),
    decreases 16 - t,
{
    let v = unsigned_bits(x) as int;
    let w = unsigned_bits(y) as int;
    if t == 16 {
        reveal_with_fuel(pow256, 17);
        assert(pow256(16) == 0x1_0000_0000_0000_0000_0000_0000_0000_0000);
        vstd::arithmetic::div_mod::lemma_basic_div(v, pow256(16) as int);
        vstd::arithmetic::div_mod::lemma_basic_div(w, pow256(16) as int);
    } else {
        lemma_high_bytes_agree(x, y, t + 1);
        lemma_pow256_pos(t);
        let d = pow256(t) as int;
        assert(pow256(t + 1) == 256 * pow256(t));
        assert(d * 256 == 256 * d) by (nonlinear_arith);
        vstd::arithmetic::div_mod::lemma_div_denominator(v, d, 256);
        vstd::arithmetic::div_mod::lemma_div_denominator(w, d, 256);
        vstd::arithmetic::div_mod::lemma_fundamental_div_mod(v / d, 256);
        vstd::arithmetic::div_mod::lemma_fundamental_div_mod(w / d, 256);
        assert(byte_of(x, t) == byte_of(y, t));
        vstd::arithmetic::div_mod::lemma_div_pos_is_pos(v, d);
        vstd::arithmetic::div_mod::lemma_div_pos_is_pos(w, d);
    }
}

proof fn lemma_bytes_determine(x: i128, y: i128)
    requires
        forall|t: nat| t < 16 ==> #[trigger] byte_of(x, t) == byte_of(y, t),
    ensures
        x == y,
{
    lemma_high_bytes_agree(x, y, 0);
    assert(pow256(0) == 1);
}

/// The bytes that the fingerprint digests determine the buffer: two buffers
/// that differ, even in one bit of one entry, hand different bytes to the
/// digest.
pub proof fn lemma_le_bytes_injective(c1: Seq<i128>, c2: Seq<i128>)
    requires
        le_bytes(c1) == le_bytes(c2),
    ensures
        c1 == c2,
{
    assert(le_bytes(c1).len() == 16 * c1.len());
    assert(le_bytes(c2).len() == 16 * c2.len());
    assert(c1.len() == c2.len());
    assert forall|p: int| 0 <= p < c1.len() implies c1[p] == c2[p] by {
        assert forall|t: nat| t < 16 implies #[trigger] byte_of(c1[p], t) == byte_of(c2[p], t) by {
            let q = 16 * p + t;
            vstd::arithmetic::div_mod::lemma_fundamental_div_mod_converse(q, 16, p, t as int);
            assert(0 <= q < 16 * c1.len());
            assert(le_bytes(c1)[q] == byte_of(c1[p], t));
            assert(le_bytes(c2)[q] == byte_of(c2[p], t));
        }
        lemma_bytes_determine(c1[p], c2[p]);
    }
    assert(c1 =~= c2);
}

} // verus!
