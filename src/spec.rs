use vstd::prelude::*;
use crate::scalar::Scalar;

verus! {

/// `acc` with the first `k` products of row `i` of the `n`-column matrix `a`
/// and column `j` of the `p`-column matrix `b` added to it, one after the
/// other in increasing order of the shared index.
pub open spec fn dot_acc<T: Scalar>(
    acc: T,
    a: Seq<T>,
    b: Seq<T>,
    n: int,
    p: int,
    i: int,
    j: int,
    k: int,
) -> T
    decreases k,
{
    if k <= 0 {
        acc
    } else {
        T::spec_plus(
            dot_acc(acc, a, b, n, p, i, j, k - 1),
            T::spec_times(a[i * n + (k - 1)], b[(k - 1) * p + j]),
        )
    }
}

/// What a kernel leaves at flat position `t` of a `p`-column output that held
/// `c0`: its old value with the whole row-by-column product added.
pub open spec fn gemm_entry<T: Scalar>(c0: Seq<T>, a: Seq<T>, b: Seq<T>, n: int, p: int, t: int) -> T {
    dot_acc(c0[t], a, b, n, p, t / p, t % p, n)
}

/// `c` is what a kernel leaves in an output that held `c0`, for the product of
/// the `n`-column matrix `a` and the `p`-column matrix `b`.
pub open spec fn gemm_of<T: Scalar>(c: Seq<T>, c0: Seq<T>, a: Seq<T>, b: Seq<T>, n: int, p: int) -> bool {
    &&& c.len() == c0.len()
    &&& forall|t: int| 0 <= t < c.len() ==> #[trigger] c[t] == gemm_entry(c0, a, b, n, p, t)
}

/// Row `i` and column `j` of a `cols`-column matrix lie inside it when stored flat.
pub proof fn lemma_flat_index(i: int, j: int, rows: int, cols: int)
    requires
        0 <= i < rows,
        0 <= j < cols,
    ensures
        0 <= i * cols + j < rows * cols,
        i * cols + cols <= rows * cols,
{
    assert(0 <= i * cols) by (nonlinear_arith)
        requires
            0 <= i,
            0 <= j < cols,
    ;
    assert(i * cols + cols <= rows * cols) by (nonlinear_arith)
        requires
            0 <= i < rows,
            0 <= j < cols,
    ;
}

/// The flat position `i * cols + j` has row `i` and column `j`.
pub proof fn lemma_flat_split(i: int, j: int, cols: int)
    requires
        0 <= i,
        0 <= j < cols,
    ensures
        (i * cols + j) / cols == i,
        (i * cols + j) % cols == j,
{
    vstd::arithmetic::div_mod::lemma_fundamental_div_mod_converse(i * cols + j, cols, i, j);
}

/// A flat position `t` of a `cols`-column matrix is row `t / cols` and column `t % cols`.
pub proof fn lemma_flat_join(t: int, cols: int)
    requires
        0 <= t,
        0 < cols,
    ensures
        t == (t / cols) * cols + t % cols,
        0 <= t % cols < cols,
        0 <= t / cols,
{
    vstd::arithmetic::div_mod::lemma_fundamental_div_mod(t, cols);
    vstd::arithmetic::div_mod::lemma_mod_bound(t, cols);
    vstd::arithmetic::div_mod::lemma_div_pos_is_pos(t, cols);
    assert((t / cols) * cols == cols * (t / cols)) by (nonlinear_arith);
}

} // verus!
