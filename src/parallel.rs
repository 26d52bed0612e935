use vstd::prelude::*;
use rayon::iter::{IndexedParallelIterator, IntoParallelIterator, ParallelIterator};
use crate::kernels::{block_row, check_operands, gemm_post, Strategy};
use crate::scalar::Scalar;
use crate::spec::{dot_acc, gemm_entry, lemma_flat_index, lemma_flat_join, lemma_flat_split};
use crate::tensor::{block_dim, F32Tensor, GemmError, BLOCK_SIZE};

verus! {

/// The output of a kernel is cut into panels, one per column block: panel `q`
/// holds the `BLOCK_SIZE` columns that start at `q * BLOCK_SIZE`, row after
/// row. Each panel is owned by exactly one task, so no two tasks can write
/// the same element.
///
/// `panel` is panel `q` of the `p`-column matrix `c`.
pub open spec fn panel_of<T>(panel: Seq<T>, c: Seq<T>, p: int, q: int) -> bool {
    forall|s: int|
        0 <= s < panel.len() ==> #[trigger] panel[s] == c[(s / BLOCK_SIZE as int) * p + q
            * BLOCK_SIZE + s % BLOCK_SIZE as int]
}

/// `out` is panel `q` after its products were added, starting from `panel`.
pub open spec fn panel_filled<T: Scalar>(
    out: Seq<T>,
    panel: Seq<T>,
    a: Seq<T>,
    b: Seq<T>,
    n: int,
    p: int,
    q: int,
) -> bool {
    &&& out.len() == panel.len()
    &&& forall|s: int|
        0 <= s < panel.len() ==> #[trigger] out[s] == dot_acc(
            panel[s],
            a,
            b,
            n,
            p,
            s / BLOCK_SIZE as int,
            q * BLOCK_SIZE + s % BLOCK_SIZE as int,
            n,
        )
}

/// What a panel task needs of its operands.
pub open spec fn panel_task_ok(m: int, n: int, p: int, a_len: int, b_len: int, q: int, panel_len: int) -> bool {
    &&& block_dim(m)
    &&& block_dim(n)
    &&& block_dim(p)
    &&& a_len == m * n
    &&& b_len == n * p
    &&& 0 <= q
    &&& q * BLOCK_SIZE + BLOCK_SIZE <= p
    &&& panel_len == m * BLOCK_SIZE
}

/// One task: adds the products for column block `q` to its panel, which it owns.
pub(crate) fn fill_panel<T: Scalar>(a: &[T], b: &[T], m: usize, n: usize, p: usize, q: usize, panel: Vec<T>) -> (r: Vec<T>)
    requires
        panel_task_ok(m as int, n as int, p as int, a@.len() as int, b@.len() as int, q as int, panel@.len() as int),
    ensures
        panel_filled(r@, panel@, a@, b@, n as int, p as int, q as int),
{
    let mut out = panel;
    let cb = q * BLOCK_SIZE;
    let mut row: usize = 0;
    while row < m
        invariant
            row <= m,
            cb == q * BLOCK_SIZE,
            panel_task_ok(m as int, n as int, p as int, a@.len() as int, b@.len() as int, q as int, panel@.len() as int),
            out.len() == panel@.len(),
            forall|s: int|
                0 <= s < panel@.len() ==> (s / BLOCK_SIZE as int) < row ==> #[trigger] out[s] == dot_acc(
                    panel@[s],
                    a@,
                    b@,
                    n as int,
                    p as int,
                    s / BLOCK_SIZE as int,
                    cb + s % BLOCK_SIZE as int,
                    n as int,
                ),
            forall|s: int| 0 <= s < panel@.len() && (s / BLOCK_SIZE as int) >= row ==> #[trigger] out[s] == panel@[s],
        decreases m - row,
    {
        proof {
            lemma_flat_index(row as int, 0, m as int, BLOCK_SIZE as int);
            lemma_flat_index(row as int, 0, m as int, n as int);
        }
        let base = row * BLOCK_SIZE;
        let ghost before = out@;
        block_row(a, b, n, p, row, cb, &mut out, base, Strategy::Scalar);
        assert forall|s: int| 0 <= s < panel@.len() implies ((s / BLOCK_SIZE as int) < row + 1 ==> #[trigger] out[s] == dot_acc(
                    panel@[s],
                    a@,
                    b@,
                    n as int,
                    p as int,
                    s / BLOCK_SIZE as int,
                    cb + s % BLOCK_SIZE as int,
                    n as int,
                )) && ((s / BLOCK_SIZE as int) >= row + 1 ==> out[s] == panel@[s]) by {
            lemma_flat_join(s, BLOCK_SIZE as int);
            if base <= s < base + BLOCK_SIZE {
                lemma_flat_split(row as int, s - base, BLOCK_SIZE as int);
            }
        }
        row = row + 1;
    }
    assert forall|s: int| 0 <= s < panel@.len() implies #[trigger] out[s] == dot_acc(
        panel@[s],
        a@,
        b@,
        n as int,
        p as int,
        s / BLOCK_SIZE as int,
        cb + s % BLOCK_SIZE as int,
        n as int,
    ) by {
        lemma_flat_join(s, BLOCK_SIZE as int);
        if (s / BLOCK_SIZE as int) >= m {
            assert((s / BLOCK_SIZE as int) * BLOCK_SIZE >= m * BLOCK_SIZE) by (nonlinear_arith)
                requires
                    (s / BLOCK_SIZE as int) >= m,
            ;
        }
    }
    out
}

/// Relies on rayon: `into_par_iter().enumerate().map(..).collect()` on a `Vec`
/// hands every panel, with its index, to `fill_panel` exactly once, waits for
/// all tasks, and gathers the results in index order.
#[verifier::external_body]
fn run_panels<T: Scalar>(a: &[T], b: &[T], m: usize, n: usize, p: usize, panels: Vec<Vec<T>>) -> (r: Vec<Vec<T>>)
    requires
        forall|q: int|
            0 <= q < panels.len() ==> panel_task_ok(
                m as int,
                n as int,
                p as int,
                a@.len() as int,
                b@.len() as int,
                q,
                #[trigger] panels[q]@.len() as int,
            ),
    ensures
        r.len() == panels.len(),
        forall|q: int|
            0 <= q < panels.len() ==> panel_filled(#[trigger] r[q]@, panels[q]@, a@, b@, n as int, p as int, q),
{
    panels.into_par_iter().enumerate().map(|(q, panel)| fill_panel(a, b, m, n, p, q, panel)).collect()
}

/// Copies the `m` by `p` matrix `c` into its panels, one per column block.
fn split_panels<T: Copy>(c: &Vec<T>, m: usize, p: usize) -> (r: Vec<Vec<T>>)
    requires
        block_dim(m as int),
        block_dim(p as int),
        c.len() == m * p,
    ensures
        r.len() * BLOCK_SIZE == p,
        forall|q: int|
            0 <= q < r.len() ==> (#[trigger] r[q]@).len() == m * BLOCK_SIZE && panel_of(
                r[q]@,
                c@,
                p as int,
                q,
            ),
{
    let blocks = p / BLOCK_SIZE;
    assert(m * BLOCK_SIZE <= m * p) by (nonlinear_arith)
        requires
            m > 0,
            p >= 16,
    ;
    let len = m * BLOCK_SIZE;
    let mut panels: Vec<Vec<T>> = Vec::new();
    let mut q: usize = 0;
    while q < blocks
        invariant
            blocks * BLOCK_SIZE == p,
            len == m * BLOCK_SIZE,
            block_dim(m as int),
            block_dim(p as int),
            c.len() == m * p,
            q <= blocks,
            panels.len() == q,
            forall|q2: int|
                0 <= q2 < q ==> (#[trigger] panels[q2]@).len() == len && panel_of(
                    panels[q2]@,
                    c@,
                    p as int,
                    q2,
                ),
        decreases blocks - q,
    {
        let mut panel: Vec<T> = Vec::new();
        let mut s: usize = 0;
        while s < len
            invariant
                blocks * BLOCK_SIZE == p,
                len == m * BLOCK_SIZE,
                block_dim(p as int),
                c.len() == m * p,
                q < blocks,
                s <= len,
                panel.len() == s,
                panel_of(panel@, c@, p as int, q as int),
            decreases len - s,
        {
            let row = s / BLOCK_SIZE;
            let e = s % BLOCK_SIZE;
            proof {
                lemma_flat_join(s as int, BLOCK_SIZE as int);
                assert(row < m) by (nonlinear_arith)
                    requires
                        s < len,
                        len == m * 16,
                        s == row * 16 + e,
                        0 <= e < 16,
                ;
                assert(q * BLOCK_SIZE + BLOCK_SIZE <= p) by (nonlinear_arith)
                    requires
                        q < blocks,
                        blocks * 16 == p,
                ;
                lemma_flat_index(row as int, q * BLOCK_SIZE + e, m as int, p as int);
            }
            panel.push(c[row * p + q * BLOCK_SIZE + e]);
            s = s + 1;
        }
        panels.push(panel);
        q = q + 1;
    }
    panels
}

/// Writes the panels back into the `m` by `p` matrix `c`.
fn join_panels<T: Copy>(c: &mut Vec<T>, panels: &Vec<Vec<T>>, m: usize, p: usize)
    requires
        block_dim(m as int),
        block_dim(p as int),
        old(c).len() == m * p,
        panels.len() * BLOCK_SIZE == p,
        forall|q: int| 0 <= q < panels.len() ==> (#[trigger] panels[q]@).len() == m * BLOCK_SIZE,
    ensures
        final(c).len() == old(c).len(),
        forall|t: int|
            0 <= t < old(c).len() ==> #[trigger] final(c)[t] == panels[(t % p as int) / BLOCK_SIZE
                as int]@[(t / p as int) * BLOCK_SIZE + (t % p as int) % BLOCK_SIZE as int],
{
    let total = c.len();
    let mut t: usize = 0;
    while t < total
        invariant
            total == c.len(),
            block_dim(m as int),
            block_dim(p as int),
            c.len() == m * p,
            panels.len() * BLOCK_SIZE == p,
            forall|q: int| 0 <= q < panels.len() ==> (#[trigger] panels[q]@).len() == m * BLOCK_SIZE,
            t <= total,
            forall|t2: int|
                0 <= t2 < t ==> #[trigger] c[t2] == panels[(t2 % p as int) / BLOCK_SIZE
                    as int]@[(t2 / p as int) * BLOCK_SIZE + (t2 % p as int) % BLOCK_SIZE as int],
        decreases total - t,
    {
        let row = t / p;
        let col = t % p;
        let q = col / BLOCK_SIZE;
        let e = col % BLOCK_SIZE;
        proof {
            lemma_flat_join(t as int, p as int);
            lemma_flat_join(col as int, BLOCK_SIZE as int);
            assert(row < m) by (nonlinear_arith)
                requires
                    t < m * p,
                    t == row * p + col,
                    0 <= col,
                    p > 0,
            ;
            assert(q < panels.len()) by (nonlinear_arith)
                requires
                    col < p,
                    col == q * 16 + e,
                    0 <= e,
                    panels.len() * 16 == p,
            ;
            lemma_flat_index(row as int, e as int, m as int, BLOCK_SIZE as int);
            assert(m * BLOCK_SIZE <= m * p) by (nonlinear_arith)
                requires
                    m > 0,
                    p >= 16,
            ;
        }
        let v = panels[q][row * BLOCK_SIZE + e];
        c.set(t, v);
        t = t + 1;
    }
}

/// Parallel cache-blocked matrix product, with the same contract as `sgemm`.
///
/// Each column block is one task on a thread pool. A task owns the panel of
/// the output that its block covers; the call returns when all tasks are
/// done. The result is a function of the operands alone, whatever the
/// scheduling.
pub fn sgemm_tiled_par<T: Scalar>(
    a: &F32Tensor<'_, T>,
    a_t: bool,
    b: &F32Tensor<'_, T>,
    b_t: bool,
    c: &mut Vec<T>,
) -> (r: Result<(), GemmError>)
    requires
        a.wf(),
        b.wf(),
    ensures
        gemm_post(a, a_t, b, b_t, old(c)@, final(c)@, r),
{
    let checked = check_operands(a, a_t, b, b_t, c.len());
    match checked {
        Err(e) => Err(e),
        Ok(()) => {
            let m = a.num_rows();
            let n = a.num_cols();
            let p = b.num_cols();
            let ad = a.data();
            let bd = b.data();
            let ghost c0 = c@;
            let panels = split_panels(c, m, p);
            assert forall|q: int| 0 <= q < panels.len() implies panel_task_ok(
                m as int,
                n as int,
                p as int,
                ad@.len() as int,
                bd@.len() as int,
                q,
                #[trigger] panels[q]@.len() as int,
            ) by {
                assert(q * BLOCK_SIZE + BLOCK_SIZE <= p) by (nonlinear_arith)
                    requires
                        q < panels.len(),
                        panels.len() * 16 == p,
                ;
            }
            let ghost before = panels@;
            let filled = run_panels(ad, bd, m, n, p, panels);
            join_panels(c, &filled, m, p);
            assert forall|t: int| 0 <= t < c0.len() implies #[trigger] c[t] == gemm_entry(
                c0,
                ad@,
                bd@,
                n as int,
                p as int,
                t,
            ) by {
                let row = t / p as int;
                let col = t % p as int;
                let q = col / BLOCK_SIZE as int;
                let e = col % BLOCK_SIZE as int;
                let s = row * BLOCK_SIZE + e;
                lemma_flat_join(t, p as int);
                lemma_flat_join(col, BLOCK_SIZE as int);
                assert(row < m) by (nonlinear_arith)
                    requires
                        t < m * p,
                        t == row * p + col,
                        0 <= col,
                        p > 0,
                ;
                assert(q < before.len()) by (nonlinear_arith)
                    requires
                        col < p,
                        col == q * 16 + e,
                        0 <= e,
                        before.len() * 16 == p,
                ;
                lemma_flat_index(row, e, m as int, BLOCK_SIZE as int);
                lemma_flat_split(row, e, BLOCK_SIZE as int);
                assert(panel_filled(filled[q]@, before[q]@, ad@, bd@, n as int, p as int, q));
                assert(panel_of(before[q]@, c0, p as int, q));
                assert(before[q]@[s] == c0[t]);
            }
            Ok(())
        },
    }
}

} // verus!
