use aml::{
    sgemm, sgemm_tiled, sgemm_tiled_par, sgemm_tiled_simd, F32Tensor, GemmError, ShapeError,
    Strategy, BLOCK_SIZE,
};

fn filled(len: usize, v: u32) -> Vec<u32> {
    vec![v; len]
}

/// Row-major `rows` by `cols` matrix whose element (i, j) is `f(i, j)`.
fn matrix(rows: usize, cols: usize, f: impl Fn(usize, usize) -> u64) -> Vec<u64> {
    let mut out = Vec::with_capacity(rows * cols);
    for i in 0..rows {
        for j in 0..cols {
            out.push(f(i, j));
        }
    }
    out
}

fn reference_product(a: &[u64], b: &[u64], m: usize, n: usize, p: usize) -> Vec<u64> {
    let mut c = vec![0u64; m * p];
    for i in 0..m {
        for j in 0..p {
            let mut acc = 0u64;
            for k in 0..n {
                acc = acc.wrapping_add(a[i * n + k].wrapping_mul(b[k * p + j]));
            }
            c[i * p + j] = acc;
        }
    }
    c
}

type Kernel = fn(&F32Tensor<u64>, bool, &F32Tensor<u64>, bool, &mut Vec<u64>) -> Result<(), GemmError>;

fn simd_scalar(a: &F32Tensor<u64>, at: bool, b: &F32Tensor<u64>, bt: bool, c: &mut Vec<u64>) -> Result<(), GemmError> {
    sgemm_tiled_simd(a, at, b, bt, c, Strategy::Scalar)
}

fn simd_lanes(a: &F32Tensor<u64>, at: bool, b: &F32Tensor<u64>, bt: bool, c: &mut Vec<u64>) -> Result<(), GemmError> {
    sgemm_tiled_simd(a, at, b, bt, c, Strategy::Lanes)
}

fn all_kernels() -> Vec<Kernel> {
    vec![sgemm, sgemm_tiled, sgemm_tiled_par, simd_scalar, simd_lanes]
}

#[test]
fn ones_single_block_gives_sixteen() {
    let a = filled(16 * 16, 1);
    let b = filled(16 * 16, 1);
    let ta = F32Tensor::new(&a, vec![16, 16]).unwrap();
    let tb = F32Tensor::new(&b, vec![16, 16]).unwrap();
    let mut c = filled(16 * 16, 0);
    sgemm(&ta, false, &tb, false, &mut c).unwrap();
    assert!(c.iter().all(|&v| v == 16));
    let mut c = filled(16 * 16, 0);
    sgemm_tiled(&ta, false, &tb, false, &mut c).unwrap();
    assert!(c.iter().all(|&v| v == 16));
    let mut c = filled(16 * 16, 0);
    sgemm_tiled_par(&ta, false, &tb, false, &mut c).unwrap();
    assert!(c.iter().all(|&v| v == 16));
    let mut c = filled(16 * 16, 0);
    sgemm_tiled_simd(&ta, false, &tb, false, &mut c, Strategy::Lanes).unwrap();
    assert!(c.iter().all(|&v| v == 16));
}

#[test]
fn ones_two_blocks_gives_thirty_two() {
    let a = filled(16 * 32, 1);
    let b = filled(32 * 16, 1);
    let ta = F32Tensor::new(&a, vec![16, 32]).unwrap();
    let tb = F32Tensor::new(&b, vec![32, 16]).unwrap();
    let mut c = filled(16 * 16, 0);
    sgemm(&ta, false, &tb, false, &mut c).unwrap();
    assert!(c.iter().all(|&v| v == 32));
    let mut c = filled(16 * 16, 0);
    sgemm_tiled(&ta, false, &tb, false, &mut c).unwrap();
    assert!(c.iter().all(|&v| v == 32));
    let mut c = filled(16 * 16, 0);
    sgemm_tiled_par(&ta, false, &tb, false, &mut c).unwrap();
    assert!(c.iter().all(|&v| v == 32));
    let mut c = filled(16 * 16, 0);
    sgemm_tiled_simd(&ta, false, &tb, false, &mut c, Strategy::Scalar).unwrap();
    assert!(c.iter().all(|&v| v == 32));
    let mut c = filled(16 * 16, 0);
    sgemm_tiled_simd(&ta, false, &tb, false, &mut c, Strategy::Lanes).unwrap();
    assert!(c.iter().all(|&v| v == 32));
}

#[test]
fn every_kernel_matches_reference_on_rectangular_shapes() {
    for &(m, n, p) in &[(16, 16, 16), (16, 48, 32), (32, 16, 48), (48, 64, 16)] {
        let a = matrix(m, n, |i, k| (i * 7 + k * 3 + 1) as u64);
        let b = matrix(n, p, |k, j| (k * 5 + j * 11 + 2) as u64);
        let expected = reference_product(&a, &b, m, n, p);
        let ta = F32Tensor::new(&a, vec![m, n]).unwrap();
        let tb = F32Tensor::new(&b, vec![n, p]).unwrap();
        for kernel in all_kernels() {
            let mut c = vec![0u64; m * p];
            kernel(&ta, false, &tb, false, &mut c).unwrap();
            assert_eq!(c, expected);
        }
    }
}

#[test]
fn exact_element_value() {
    // Row 0 of a is 0, 1, ..., 15 and column 0 of b is all 2: 2 * (0 + ... + 15) = 240.
    let a = matrix(16, 16, |_, k| k as u64);
    let b = matrix(16, 16, |_, _| 2);
    let ta = F32Tensor::new(&a, vec![16, 16]).unwrap();
    let tb = F32Tensor::new(&b, vec![16, 16]).unwrap();
    for kernel in all_kernels() {
        let mut c = vec![0u64; 256];
        kernel(&ta, false, &tb, false, &mut c).unwrap();
        assert_eq!(c[0], 240);
        assert_eq!(c[255], 240);
    }
}

#[test]
fn kernels_accumulate_into_output() {
    let a = filled(16 * 16, 1);
    let b = filled(16 * 16, 1);
    let ta = F32Tensor::new(&a, vec![16, 16]).unwrap();
    let tb = F32Tensor::new(&b, vec![16, 16]).unwrap();
    let mut c = filled(16 * 16, 5);
    sgemm_tiled(&ta, false, &tb, false, &mut c).unwrap();
    assert!(c.iter().all(|&v| v == 21));
    sgemm(&ta, false, &tb, false, &mut c).unwrap();
    assert!(c.iter().all(|&v| v == 37));
}

#[test]
fn wrapping_arithmetic_in_integer_elements() {
    let a = filled(16 * 16, u32::MAX);
    let b = filled(16 * 16, 1);
    let ta = F32Tensor::new(&a, vec![16, 16]).unwrap();
    let tb = F32Tensor::new(&b, vec![16, 16]).unwrap();
    let mut c = filled(16 * 16, 0);
    sgemm_tiled_par(&ta, false, &tb, false, &mut c).unwrap();
    assert!(c.iter().all(|&v| v == u32::MAX.wrapping_mul(16)));
}

#[test]
fn parallel_runs_are_identical() {
    let a = matrix(32, 48, |i, k| (i * 31 + k * 17) as u64);
    let b = matrix(48, 64, |k, j| (k * 13 + j * 29 + 3) as u64);
    let ta = F32Tensor::new(&a, vec![32, 48]).unwrap();
    let tb = F32Tensor::new(&b, vec![48, 64]).unwrap();
    let mut first = vec![0u64; 32 * 64];
    sgemm_tiled_par(&ta, false, &tb, false, &mut first).unwrap();
    for _ in 0..5 {
        let mut again = vec![0u64; 32 * 64];
        sgemm_tiled_par(&ta, false, &tb, false, &mut again).unwrap();
        assert_eq!(again, first);
    }
}

#[test]
fn shapes_off_the_block_are_rejected() {
    for d in 1..32usize {
        let ok = d % BLOCK_SIZE == 0;
        let data = vec![0u32; d * 16];
        assert_eq!(F32Tensor::new(&data, vec![d, 16]).is_ok(), ok);
        assert_eq!(F32Tensor::new(&data, vec![16, d]).is_ok(), ok);
        if !ok {
            assert_eq!(F32Tensor::new(&data, vec![d, 16]).err(), Some(ShapeError::NotBlockMultiple));
        }
    }
}

#[test]
fn zero_dimension_is_rejected() {
    let data: Vec<u32> = Vec::new();
    assert_eq!(F32Tensor::new(&data, vec![0, 16]).err(), Some(ShapeError::NotBlockMultiple));
}

#[test]
fn wrong_rank_is_rejected() {
    let data = vec![0u32; 256];
    assert_eq!(F32Tensor::new(&data, vec![256]).err(), Some(ShapeError::Rank));
    assert_eq!(F32Tensor::new(&data, vec![16, 16, 1]).err(), Some(ShapeError::Rank));
}

#[test]
fn wrong_data_length_is_rejected() {
    let data = vec![0u32; 255];
    assert_eq!(F32Tensor::new(&data, vec![16, 16]).err(), Some(ShapeError::DataLength));
    let huge = vec![0u32; 16];
    assert_eq!(
        F32Tensor::new(&huge, vec![usize::MAX - 15, usize::MAX - 15]).err(),
        Some(ShapeError::DataLength)
    );
}

#[test]
fn view_reports_its_shape() {
    let data = vec![7u32; 16 * 32];
    let t = F32Tensor::new(&data, vec![16, 32]).unwrap();
    assert_eq!(t.num_rows(), 16);
    assert_eq!(t.num_cols(), 32);
    assert_eq!(t.data().len(), 512);
}

#[test]
fn incompatible_operands_leave_output_untouched() {
    let a = matrix(16, 32, |_, _| 1);
    let b = matrix(16, 16, |_, _| 1);
    let ta = F32Tensor::new(&a, vec![16, 32]).unwrap();
    let tb = F32Tensor::new(&b, vec![16, 16]).unwrap();
    for kernel in all_kernels() {
        let mut c = vec![9u64; 256];
        assert_eq!(kernel(&ta, false, &tb, false, &mut c), Err(GemmError::Incompatible));
        assert!(c.iter().all(|&v| v == 9));
    }
}

#[test]
fn wrong_output_size_is_rejected() {
    let a = matrix(16, 16, |_, _| 1);
    let ta = F32Tensor::new(&a, vec![16, 16]).unwrap();
    for kernel in all_kernels() {
        let mut c = vec![3u64; 255];
        assert_eq!(kernel(&ta, false, &ta, false, &mut c), Err(GemmError::Size));
        assert!(c.iter().all(|&v| v == 3));
    }
}

#[test]
fn transposes_are_unsupported() {
    let a = matrix(16, 32, |_, _| 1);
    let ta = F32Tensor::new(&a, vec![16, 32]).unwrap();
    for kernel in all_kernels() {
        let mut c = vec![0u64; 10];
        assert_eq!(kernel(&ta, true, &ta, false, &mut c), Err(GemmError::Unsupported));
        assert_eq!(kernel(&ta, false, &ta, true, &mut c), Err(GemmError::Unsupported));
        assert!(c.iter().all(|&v| v == 0));
    }
}
