use vstd::prelude::*;
use crate::scalar::Scalar;
use crate::spec::{dot_acc, gemm_entry, gemm_of, lemma_flat_index, lemma_flat_join, lemma_flat_split};
use crate::tensor::{block_dim, F32Tensor, GemmError, BLOCK_SIZE};

verus! {

/// How the blocked kernel computes the sixteen outputs of one tile step.
#[derive(Debug, Clone, Copy, PartialEq, Eq, Structural)]
pub enum Strategy {
    /// One output element after the other.
    Scalar,
    /// Two eight-lane groups: one element of the left operand is broadcast
    /// and multiplied by eight adjacent elements of the right one at a time.
    Lanes,
}

/// The error a kernel reports for these operands, checked in this order:
/// transposes, then the shared dimension, then the output length.
pub open spec fn gemm_error(
    a_t: bool,
    b_t: bool,
    a_rows: int,
    a_cols: int,
    b_rows: int,
    b_cols: int,
    c_len: int,
) -> Option<GemmError> {
    if a_t || b_t {
        Some(GemmError::Unsupported)
    } else if a_cols != b_rows {
        Some(GemmError::Incompatible)
    } else if c_len != a_rows * b_cols {
        Some(GemmError::Size)
    } else {
        None
    }
}

/// What every kernel promises: on an error nothing is written; otherwise each
/// output element has its row-by-column product added to it.
pub open spec fn gemm_post<T: Scalar>(
    a: &F32Tensor<'_, T>,
    a_t: bool,
    b: &F32Tensor<'_, T>,
    b_t: bool,
    c0: Seq<T>,
    c: Seq<T>,
    r: Result<(), GemmError>,
) -> bool {
    match gemm_error(a_t, b_t, a.rows(), a.cols(), b.rows(), b.cols(), c0.len() as int) {
        Some(e) => r == Err::<(), GemmError>(e) && c == c0,
        None => r == Ok::<(), GemmError>(()) && gemm_of(c, c0, a.elems(), b.elems(), a.cols(), b.cols()),
    }
}

/// Checks the operands of a kernel before anything is written.
pub fn check_operands<T>(
    a: &F32Tensor<'_, T>,
    a_t: bool,
    b: &F32Tensor<'_, T>,
    b_t: bool,
    c_len: usize,
) -> (r: Result<(), GemmError>)
    ensures
        r is Ok <==> gemm_error(a_t, b_t, a.rows(), a.cols(), b.rows(), b.cols(), c_len as int) is None,
        r is Err ==> Some(r->Err_0) == gemm_error(
            a_t,
            b_t,
            a.rows(),
            a.cols(),
            b.rows(),
            b.cols(),
            c_len as int,
        ),
{
    if a_t || b_t {
        return Err(GemmError::Unsupported);
    }
    if a.num_cols() != b.num_rows() {
        return Err(GemmError::Incompatible);
    }
    match a.num_rows().checked_mul(b.num_cols()) {
        Some(len) => {
            if len == c_len {
                Ok(())
            } else {
                Err(GemmError::Size)
            }
        },
        None => Err(GemmError::Size),
    }
}

/// Adds `x` times `b[b_base + e]` to `c[base + e]` for each `e` below `BLOCK_SIZE`,
/// one element after the other.
fn segment_scalar<T: Scalar>(c: &mut Vec<T>, base: usize, x: T, b: &[T], b_base: usize)
    requires
        base + BLOCK_SIZE <= old(c).len(),
        b_base + BLOCK_SIZE <= b@.len(),
    ensures
        final(c).len() == old(c).len(),
        forall|t: int|
            base <= t < base + BLOCK_SIZE ==> #[trigger] final(c)[t] == T::spec_plus(
                old(c)[t],
                T::spec_times(x, b@[b_base + (t - base)]),
            ),
        forall|t: int|
            0 <= t < old(c).len() && !(base <= t < base + BLOCK_SIZE) ==> #[trigger] final(c)[t]
                == old(c)[t],
{
    let b_len = b.len();
    let mut e: usize = 0;
    while e < BLOCK_SIZE
        invariant
            e <= BLOCK_SIZE,
            b_len == b@.len(),
            base + BLOCK_SIZE <= old(c).len(),
            b_base + BLOCK_SIZE <= b@.len(),
            c.len() == old(c).len(),
            forall|t: int|
                base <= t < base + e ==> #[trigger] c[t] == T::spec_plus(
                    old(c)[t],
                    T::spec_times(x, b@[b_base + (t - base)]),
                ),
            forall|t: int|
                0 <= t < old(c).len() && !(base <= t < base + e) ==> #[trigger] c[t] == old(c)[t],
        decreases BLOCK_SIZE - e,
    {
        let v = T::plus(c[base + e], T::times(x, b[b_base + e]));
        c.set(base + e, v);
        e = e + 1;
    }
}

/// The same step as `segment_scalar`, computed as two groups of eight lanes:
/// each group is loaded, updated with the broadcast `x`, and stored back.
fn segment_lanes<T: Scalar>(c: &mut Vec<T>, base: usize, x: T, b: &[T], b_base: usize)
    requires
        base + BLOCK_SIZE <= old(c).len(),
        b_base + BLOCK_SIZE <= b@.len(),
    ensures
        final(c).len() == old(c).len(),
        forall|t: int|
            base <= t < base + BLOCK_SIZE ==> #[trigger] final(c)[t] == T::spec_plus(
                old(c)[t],
                T::spec_times(x, b@[b_base + (t - base)]),
            ),
        forall|t: int|
            0 <= t < old(c).len() && !(base <= t < base + BLOCK_SIZE) ==> #[trigger] final(c)[t]
                == old(c)[t],
{
    let b_len = b.len();
    let mut group: usize = 0;
    while group < 2
        invariant
            group <= 2,
            b_len == b@.len(),
            base + BLOCK_SIZE <= old(c).len(),
            b_base + BLOCK_SIZE <= b@.len(),
            c.len() == old(c).len(),
            forall|t: int|
                base <= t < base + 8 * group ==> #[trigger] c[t] == T::spec_plus(
                    old(c)[t],
                    T::spec_times(x, b@[b_base + (t - base)]),
                ),
            forall|t: int|
                0 <= t < old(c).len() && !(base <= t < base + 8 * group) ==> #[trigger] c[t]
                    == old(c)[t],
        decreases 2 - group,
    {
        let start = base + 8 * group;
        let b_start = b_base + 8 * group;
        let mut lanes: [T; 8] = [
            c[start],
            c[start + 1],
            c[start + 2],
            c[start + 3],
            c[start + 4],
            c[start + 5],
            c[start + 6],
            c[start + 7],
        ];
        let ghost loaded = lanes@;
        let mut l: usize = 0;
        while l < 8
            invariant
                l <= 8,
                b_len == b@.len(),
                loaded.len() == 8,
                start + 8 <= c.len(),
                b_start + 8 <= b@.len(),
                lanes@.len() == 8,
                forall|q: int| 0 <= q < l ==> #[trigger] lanes@[q] == T::spec_plus(
                    loaded[q],
                    T::spec_times(x, b@[b_start + q]),
                ),
                forall|q: int| l <= q < 8 ==> #[trigger] lanes@[q] == loaded[q],
            decreases 8 - l,
        {
            let v = T::plus(lanes[l], T::times(x, b[b_start + l]));
            lanes.set(l, v);
            l = l + 1;
        }
        let ghost before = c@;
        let mut s: usize = 0;
        while s < 8
            invariant
                s <= 8,
                start + 8 <= c.len(),
                c.len() == before.len(),
                lanes@.len() == 8,
                forall|q: int| 0 <= q < s ==> #[trigger] c[start + q] == lanes@[q],
                forall|t: int|
                    0 <= t < c.len() && !(start <= t < start + s) ==> #[trigger] c[t] == before[t],
            decreases 8 - s,
        {
            c.set(start + s, lanes[s]);
            s = s + 1;
        }
        assert forall|t: int| base <= t < base + 8 * (group + 1) implies #[trigger] c[t]
            == T::spec_plus(old(c)[t], T::spec_times(x, b@[b_base + (t - base)])) by {
            if t >= start {
                let q = t - start;
                assert(c[start + q] == lanes@[q]);
            }
        }
        group = group + 1;
    }
}

/// Adds the products of row `row` of `a` and the `BLOCK_SIZE` columns of `b`
/// that start at `cb` to the segment of `c` that starts at `base`, one tile of
/// the shared dimension after the other.
pub(crate) fn block_row<T: Scalar>(
    a: &[T],
    b: &[T],
    n: usize,
    p: usize,
    row: usize,
    cb: usize,
    c: &mut Vec<T>,
    base: usize,
    strategy: Strategy,
)
    requires
        n > 0,
        n % BLOCK_SIZE == 0,
        row * n + n <= a@.len(),
        b@.len() == n * p,
        cb + BLOCK_SIZE <= p,
        base + BLOCK_SIZE <= old(c).len(),
    ensures
        final(c).len() == old(c).len(),
        forall|t: int|
            base <= t < base + BLOCK_SIZE ==> #[trigger] final(c)[t] == dot_acc(
                old(c)[t],
                a@,
                b@,
                n as int,
                p as int,
                row as int,
                cb + (t - base),
                n as int,
            ),
        forall|t: int|
            0 <= t < old(c).len() && !(base <= t < base + BLOCK_SIZE) ==> #[trigger] final(c)[t]
                == old(c)[t],
{
    let ghost c0 = c@;
    let a_len = a.len();
    let b_len = b.len();
    let mut tile: usize = 0;
    while tile < n
        invariant
            a_len == a@.len(),
            b_len == b@.len(),
            tile <= n,
            tile % BLOCK_SIZE == 0,
            n % BLOCK_SIZE == 0,
            row * n + n <= a@.len(),
            b@.len() == n * p,
            cb + BLOCK_SIZE <= p,
            base + BLOCK_SIZE <= c0.len(),
            c.len() == c0.len(),
            forall|t: int|
                base <= t < base + BLOCK_SIZE ==> #[trigger] c[t] == dot_acc(
                    c0[t],
                    a@,
                    b@,
                    n as int,
                    p as int,
                    row as int,
                    cb + (t - base),
                    tile as int,
                ),
            forall|t: int| 0 <= t < c0.len() && !(base <= t < base + BLOCK_SIZE) ==> #[trigger] c[t] == c0[t],
        decreases n - tile,
    {
        assert(tile + BLOCK_SIZE <= n) by (nonlinear_arith)
            requires
                tile < n,
                tile % 16 == 0,
                n % 16 == 0,
        ;
        let mut tr: usize = 0;
        while tr < BLOCK_SIZE
            invariant
                a_len == a@.len(),
                b_len == b@.len(),
                tile + BLOCK_SIZE <= n,
                tr <= BLOCK_SIZE,
                row * n + n <= a@.len(),
                b@.len() == n * p,
                cb + BLOCK_SIZE <= p,
                base + BLOCK_SIZE <= c0.len(),
                c.len() == c0.len(),
                forall|t: int|
                    base <= t < base + BLOCK_SIZE ==> #[trigger] c[t] == dot_acc(
                        c0[t],
                        a@,
                        b@,
                        n as int,
                        p as int,
                        row as int,
                        cb + (t - base),
                        tile + tr,
                    ),
                forall|t: int| 0 <= t < c0.len() && !(base <= t < base + BLOCK_SIZE) ==> #[trigger] c[t] == c0[t],
            decreases BLOCK_SIZE - tr,
        {
            let k = tile + tr;
            let x = a[row * n + k];
            proof {
                lemma_flat_index(k as int, cb as int, n as int, p as int);
            }
            let b_base = k * p + cb;
            let ghost before = c@;
            match strategy {
                Strategy::Scalar => segment_scalar(c, base, x, b, b_base),
                Strategy::Lanes => segment_lanes(c, base, x, b, b_base),
            }
            assert forall|t: int| base <= t < base + BLOCK_SIZE implies #[trigger] c[t] == dot_acc(
                c0[t],
                a@,
                b@,
                n as int,
                p as int,
                row as int,
                cb + (t - base),
                k + 1,
            ) by {
                assert(before[t] == dot_acc(c0[t], a@, b@, n as int, p as int, row as int, cb + (t - base), k as int));
                assert(b_base + (t - base) == k * p + (cb + (t - base)));
            }
            tr = tr + 1;
        }
        tile = tile + BLOCK_SIZE;
    }
}

/// The blocked loop nest, accumulating into `c`: column blocks, then rows,
/// then tiles of the shared dimension.
fn tiled_in_place<T: Scalar>(
    a: &[T],
    b: &[T],
    m: usize,
    n: usize,
    p: usize,
    c: &mut Vec<T>,
    strategy: Strategy,
)
    requires
        block_dim(m as int),
        block_dim(n as int),
        block_dim(p as int),
        a@.len() == m * n,
        b@.len() == n * p,
        old(c).len() == m * p,
    ensures
        gemm_of(final(c)@, old(c)@, a@, b@, n as int, p as int),
{
    let ghost c0 = c@;
    let mut cb: usize = 0;
    while cb < p
        invariant
            cb <= p,
            cb % BLOCK_SIZE == 0,
            block_dim(m as int),
            block_dim(n as int),
            block_dim(p as int),
            a@.len() == m * n,
            b@.len() == n * p,
            c0.len() == m * p,
            c.len() == c0.len(),
            forall|t: int|
                0 <= t < c0.len() ==> (t % (p as int) < cb ==> #[trigger] c[t] == gemm_entry(c0, a@, b@, n as int, p as int, t))
                    && (t % (p as int) >= cb ==> c[t] == c0[t]),
        decreases p - cb,
    {
        let mut row: usize = 0;
        while row < m
            invariant
                cb + BLOCK_SIZE <= p,
                row <= m,
                block_dim(m as int),
                block_dim(n as int),
                block_dim(p as int),
                a@.len() == m * n,
                b@.len() == n * p,
                c0.len() == m * p,
                c.len() == c0.len(),
                forall|t: int|
                    0 <= t < c0.len() ==> ((t % (p as int) < cb || (t % (p as int) < cb + BLOCK_SIZE && t / (p as int) < row))
                        ==> #[trigger] c[t] == gemm_entry(c0, a@, b@, n as int, p as int, t))
                        && (!(t % (p as int) < cb || (t % (p as int) < cb + BLOCK_SIZE && t / (p as int) < row))
                        ==> c[t] == c0[t]),
            decreases m - row,
        {
            proof {
                lemma_flat_index(row as int, cb as int, m as int, p as int);
                lemma_flat_index(row as int, 0, m as int, n as int);
            }
            let base = row * p + cb;
            let ghost before = c@;
            block_row(a, b, n, p, row, cb, c, base, strategy);
            assert forall|t: int| 0 <= t < c0.len() implies ((t % (p as int) < cb || (t % (p as int) < cb + BLOCK_SIZE && t / (p as int) < row + 1))
                        ==> #[trigger] c[t] == gemm_entry(c0, a@, b@, n as int, p as int, t))
                        && (!(t % (p as int) < cb || (t % (p as int) < cb + BLOCK_SIZE && t / (p as int) < row + 1))
                        ==> c[t] == c0[t]) by {
                lemma_flat_join(t, p as int);
                if base <= t < base + BLOCK_SIZE {
                    lemma_flat_split(row as int, cb + (t - base), p as int);
                } else if t / (p as int) == row && cb <= t % (p as int) < cb + BLOCK_SIZE {
                    assert(t == row * p + t % (p as int));
                }
            }
            row = row + 1;
        }
        assert forall|t: int| 0 <= t < c0.len() implies (t % (p as int) < cb + BLOCK_SIZE
            ==> #[trigger] c[t] == gemm_entry(c0, a@, b@, n as int, p as int, t))
            && (t % (p as int) >= cb + BLOCK_SIZE ==> c[t] == c0[t]) by {
            lemma_flat_join(t, p as int);
            if t / (p as int) >= m {
                assert((t / (p as int)) * p >= m * p) by (nonlinear_arith)
                    requires
                        t / (p as int) >= m,
                        p > 0,
                ;
            }
        }
        cb = cb + BLOCK_SIZE;
    }
}

/// The triple loop: for each output element, every product of the shared
/// dimension is added to it in turn.
fn naive_in_place<T: Scalar>(a: &[T], b: &[T], m: usize, n: usize, p: usize, c: &mut Vec<T>)
    requires
        block_dim(m as int),
        block_dim(n as int),
        block_dim(p as int),
        a@.len() == m * n,
        b@.len() == n * p,
        old(c).len() == m * p,
    ensures
        gemm_of(final(c)@, old(c)@, a@, b@, n as int, p as int),
{
    let ghost c0 = c@;
    let a_len = a.len();
    let b_len = b.len();
    let c_len = c.len();
    let mut i: usize = 0;
    while i < m
        invariant
            i <= m,
            a_len == a@.len(),
            b_len == b@.len(),
            c_len == c0.len(),
            block_dim(m as int),
            block_dim(n as int),
            block_dim(p as int),
            a@.len() == m * n,
            b@.len() == n * p,
            c0.len() == m * p,
            c.len() == c0.len(),
            forall|t: int|
                0 <= t < c0.len() ==> (t < i * p ==> #[trigger] c[t] == gemm_entry(c0, a@, b@, n as int, p as int, t))
                    && (t >= i * p ==> c[t] == c0[t]),
        decreases m - i,
    {
        let mut j: usize = 0;
        while j < p
            invariant
                i < m,
                j <= p,
                a_len == a@.len(),
                b_len == b@.len(),
                c_len == c0.len(),
                block_dim(n as int),
                block_dim(p as int),
                a@.len() == m * n,
                b@.len() == n * p,
                c0.len() == m * p,
                c.len() == c0.len(),
                forall|t: int|
                    0 <= t < c0.len() ==> (t < i * p + j ==> #[trigger] c[t] == gemm_entry(c0, a@, b@, n as int, p as int, t))
                        && (t >= i * p + j ==> c[t] == c0[t]),
            decreases p - j,
        {
            proof {
                lemma_flat_index(i as int, j as int, m as int, p as int);
                lemma_flat_split(i as int, j as int, p as int);
                lemma_flat_index(i as int, 0, m as int, n as int);
            }
            let idx = i * p + j;
            let ghost before = c@;
            let mut k: usize = 0;
            while k < n
                invariant
                    k <= n,
                    idx == i * p + j,
                    idx < c.len(),
                    i * n + n <= a_len,
                    j < p,
                    a_len == a@.len(),
                    b_len == b@.len(),
                    b@.len() == n * p,
                    c.len() == before.len(),
                    c[idx as int] == dot_acc(before[idx as int], a@, b@, n as int, p as int, i as int, j as int, k as int),
                    forall|t: int| 0 <= t < before.len() && t != idx ==> #[trigger] c[t] == before[t],
                decreases n - k,
            {
                proof {
                    lemma_flat_index(k as int, j as int, n as int, p as int);
                }
                let v = T::plus(c[idx], T::times(a[i * n + k], b[k * p + j]));
                c.set(idx, v);
                k = k + 1;
            }
            j = j + 1;
        }
        assert(i * p + p == (i + 1) * p) by (nonlinear_arith);
        i = i + 1;
    }
}

/// Naive matrix product: adds `a` times `b` into the row-major output `c`.
///
/// `c` is accumulated into, not overwritten: a caller that wants the product
/// itself starts from zeros. On an error nothing is written.
pub fn sgemm<T: Scalar>(
    a: &F32Tensor<'_, T>,
    a_t: bool,
    b: &F32Tensor<'_, T>,
    b_t: bool,
    c: &mut Vec<T>,
) -> (r: Result<(), GemmError>)
    requires
        a.wf(),
        b.wf(),
    ensures
        gemm_post(a, a_t, b, b_t, old(c)@, final(c)@, r),
{
    let checked = check_operands(a, a_t, b, b_t, c.len());
    match checked {
        Err(e) => Err(e),
        Ok(()) => {
            naive_in_place(a.data(), b.data(), a.num_rows(), a.num_cols(), b.num_cols(), c);
            Ok(())
        },
    }
}

/// Cache-blocked matrix product, with the same contract as `sgemm`.
///
/// Output columns are taken a block of `BLOCK_SIZE` at a time; for each row,
/// the shared dimension is walked a tile at a time, and every partial product
/// is added to the output, so the result matches `sgemm` for every shared
/// dimension, not only a single tile.
pub fn sgemm_tiled<T: Scalar>(
    a: &F32Tensor<'_, T>,
    a_t: bool,
    b: &F32Tensor<'_, T>,
    b_t: bool,
    c: &mut Vec<T>,
) -> (r: Result<(), GemmError>)
    requires
        a.wf(),
        b.wf(),
    ensures
        gemm_post(a, a_t, b, b_t, old(c)@, final(c)@, r),
{
    let checked = check_operands(a, a_t, b, b_t, c.len());
    match checked {
        Err(e) => Err(e),
        Ok(()) => {
            tiled_in_place(a.data(), b.data(), a.num_rows(), a.num_cols(), b.num_cols(), c, Strategy::Scalar);
            Ok(())
        },
    }
}

/// Cache-blocked matrix product whose inner step follows `strategy`, chosen
/// once by the caller (for instance after probing the processor for wide
/// vector instructions). Same contract as `sgemm` whichever is chosen.
pub fn sgemm_tiled_simd<T: Scalar>(
    a: &F32Tensor<'_, T>,
    a_t: bool,
    b: &F32Tensor<'_, T>,
    b_t: bool,
    c: &mut Vec<T>,
    strategy: Strategy,
) -> (r: Result<(), GemmError>)
    requires
        a.wf(),
        b.wf(),
    ensures
        gemm_post(a, a_t, b, b_t, old(c)@, final(c)@, r),
{
    let checked = check_operands(a, a_t, b, b_t, c.len());
    match checked {
        Err(e) => Err(e),
        Ok(()) => {
            tiled_in_place(a.data(), b.data(), a.num_rows(), a.num_cols(), b.num_cols(), c, strategy);
            Ok(())
        },
    }
}

} // verus!
