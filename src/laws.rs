use vstd::prelude::*;
use crate::kernels::gemm_post;
use crate::scalar::Scalar;
use crate::spec::{dot_acc, gemm_entry, gemm_of};
use crate::tensor::{F32Tensor, GemmError};

verus! {

/// Two outputs that both hold the product of the same operands, added to the
/// same starting output, are equal.
pub proof fn lemma_gemm_unique<T: Scalar>(
    c0: Seq<T>,
    a: Seq<T>,
    b: Seq<T>,
    n: int,
    p: int,
    c1: Seq<T>,
    c2: Seq<T>,
)
    requires
        gemm_of(c1, c0, a, b, n, p),
        gemm_of(c2, c0, a, b, n, p),
    ensures
        c1 == c2,
{
    assert forall|t: int| 0 <= t < c1.len() implies #[trigger] c1[t] == c2[t] by {
        assert(c1[t] == gemm_entry(c0, a, b, n, p, t));
        assert(c2[t] == gemm_entry(c0, a, b, n, p, t));
    }
    assert(c1 =~= c2);
}

/// Every blocked kernel agrees with the naive one, for every accepted shape
/// and every shared dimension: whenever `sgemm` leaves `c_naive` and one of
/// `sgemm_tiled`, `sgemm_tiled_par` or `sgemm_tiled_simd` leaves `c_blocked`,
/// both called on the same operands and the same starting output `c0`, the
/// two outputs and the two results are equal.
pub proof fn lemma_blocked_matches_naive<T: Scalar>(
    a: &F32Tensor<'_, T>,
    b: &F32Tensor<'_, T>,
    a_t: bool,
    b_t: bool,
    c0: Seq<T>,
    c_naive: Seq<T>,
    r_naive: Result<(), GemmError>,
    c_blocked: Seq<T>,
    r_blocked: Result<(), GemmError>,
)
    requires
        a.wf(),
        b.wf(),
        gemm_post(a, a_t, b, b_t, c0, c_naive, r_naive),
        gemm_post(a, a_t, b, b_t, c0, c_blocked, r_blocked),
    ensures
        c_naive == c_blocked,
        r_naive == r_blocked,
{
    if r_naive is Ok {
        lemma_gemm_unique(c0, a.elems(), b.elems(), a.cols(), b.cols(), c_naive, c_blocked);
    }
}

/// The parallel kernel is deterministic: two runs of `sgemm_tiled_par` on the
/// same operands and the same starting output leave equal outputs and return
/// equal results, however the tasks were scheduled.
pub proof fn lemma_parallel_deterministic<T: Scalar>(
    a: &F32Tensor<'_, T>,
    b: &F32Tensor<'_, T>,
    c0: Seq<T>,
    c_first: Seq<T>,
    r_first: Result<(), GemmError>,
    c_second: Seq<T>,
    r_second: Result<(), GemmError>,
)
    requires
        a.wf(),
        b.wf(),
        gemm_post(a, false, b, false, c0, c_first, r_first),
        gemm_post(a, false, b, false, c0, c_second, r_second),
    ensures
        c_first == c_second,
        r_first == r_second,
{
    lemma_blocked_matches_naive(a, b, false, false, c0, c_first, r_first, c_second, r_second);
}

/// The integer sum of the first `k` products of row `i` of the `n`-column
/// matrix `a` and column `j` of the `p`-column matrix `b`, without wrapping.
pub open spec fn row_col_sum(a: Seq<u64>, b: Seq<u64>, n: int, p: int, i: int, j: int, k: int) -> int
    decreases k,
{
    if k <= 0 {
        0
    } else {
        row_col_sum(a, b, n, p, i, j, k - 1) + a[i * n + (k - 1)] * b[(k - 1) * p + j]
    }
}

/// The modulus of `u64` arithmetic.
pub open spec fn u64_modulus() -> int {
    u64::MAX as int + 1
}

proof fn lemma_u64_wrapping_add(x: u64, y: u64)
    ensures
        u64::spec_plus(x, y) as int == (x + y) % u64_modulus(),
{
    if x + y > u64::MAX {
        vstd::arithmetic::div_mod::lemma_fundamental_div_mod_converse(
            x + y,
            u64_modulus(),
            1,
            x + y - u64_modulus(),
        );
    } else {
        vstd::arithmetic::div_mod::lemma_fundamental_div_mod_converse(x + y, u64_modulus(), 0, x + y);
    }
}

proof fn lemma_u64_dot(a: Seq<u64>, b: Seq<u64>, n: int, p: int, i: int, j: int, k: int)
    requires
        0 <= k,
    ensures
        dot_acc(0u64, a, b, n, p, i, j, k) as int == row_col_sum(a, b, n, p, i, j, k) % u64_modulus(),
    decreases k,
{
    if k == 0 {
        vstd::arithmetic::div_mod::lemma_small_mod(0, u64_modulus() as nat);
    } else {
        lemma_u64_dot(a, b, n, p, i, j, k - 1);
        let x = a[i * n + (k - 1)];
        let y = b[(k - 1) * p + j];
        let prev = dot_acc(0u64, a, b, n, p, i, j, k - 1);
        let s = row_col_sum(a, b, n, p, i, j, k - 1);
        lemma_u64_wrapping_add(prev, u64::spec_times(x, y));
        assert(u64::spec_times(x, y) as int == (x * y) % u64_modulus());
        vstd::arithmetic::div_mod::lemma_add_mod_noop(s, x * y, u64_modulus());
        vstd::arithmetic::div_mod::lemma_mod_twice(s, u64_modulus());
        vstd::arithmetic::div_mod::lemma_mod_twice(x * y, u64_modulus());
    }
}

/// With `u64` elements and an output that starts at zero, every kernel leaves
/// the exact matrix product, reduced modulo 2^64: element `t` is the integer
/// sum over the shared dimension of row `t / p` of `a` times column `t % p`
/// of `b`.
pub proof fn lemma_u64_product_exact(c: Seq<u64>, c0: Seq<u64>, a: Seq<u64>, b: Seq<u64>, n: int, p: int)
    requires
        0 <= n,
        gemm_of(c, c0, a, b, n, p),
        forall|t: int| 0 <= t < c0.len() ==> #[trigger] c0[t] == 0,
    ensures
        forall|t: int|
            0 <= t < c.len() ==> #[trigger] c[t] as int == row_col_sum(a, b, n, p, t / p, t % p, n)
                % u64_modulus(),
{
    assert forall|t: int| 0 <= t < c.len() implies #[trigger] c[t] as int == row_col_sum(
        a,
        b,
        n,
        p,
        t / p,
        t % p,
        n,
    ) % u64_modulus() by {
        assert(c0[t] == 0);
        lemma_u64_dot(a, b, n, p, t / p, t % p, n);
    }
}

} // verus!
