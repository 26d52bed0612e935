use aml::{sgemm, sgemm_tiled, sgemm_tiled_par, sgemm_tiled_simd, F32Tensor, Scalar, Strategy};

/// Single-precision elements, multiplied and added as `f32` does.
#[derive(Clone, Copy, Debug, PartialEq)]
struct F32(f32);

impl Scalar for F32 {
    fn spec_plus(x: F32, y: F32) -> F32 {
        F32(x.0 + y.0)
    }

    fn spec_times(x: F32, y: F32) -> F32 {
        F32(x.0 * y.0)
    }

    fn plus(x: F32, y: F32) -> F32 {
        F32(x.0 + y.0)
    }

    fn times(x: F32, y: F32) -> F32 {
        F32(x.0 * y.0)
    }
}

fn ones(len: usize) -> Vec<F32> {
    vec![F32(1.0); len]
}

#[test]
fn float_ones_single_block() {
    let a = ones(256);
    let b = ones(256);
    let ta = F32Tensor::new(&a, vec![16, 16]).unwrap();
    let tb = F32Tensor::new(&b, vec![16, 16]).unwrap();
    let mut c = vec![F32(0.0); 256];
    sgemm(&ta, false, &tb, false, &mut c).unwrap();
    assert!(c.iter().all(|v| v.0 == 16.0));
    let mut c = vec![F32(0.0); 256];
    sgemm_tiled_par(&ta, false, &tb, false, &mut c).unwrap();
    assert!(c.iter().all(|v| v.0 == 16.0));
}

#[test]
fn float_ones_two_blocks() {
    let a = ones(16 * 32);
    let b = ones(32 * 16);
    let ta = F32Tensor::new(&a, vec![16, 32]).unwrap();
    let tb = F32Tensor::new(&b, vec![32, 16]).unwrap();
    let mut naive = vec![F32(0.0); 256];
    sgemm(&ta, false, &tb, false, &mut naive).unwrap();
    assert!(naive.iter().all(|v| v.0 == 32.0));
    let mut tiled = vec![F32(0.0); 256];
    sgemm_tiled(&ta, false, &tb, false, &mut tiled).unwrap();
    assert_eq!(tiled, naive);
    let mut par = vec![F32(0.0); 256];
    sgemm_tiled_par(&ta, false, &tb, false, &mut par).unwrap();
    assert_eq!(par, naive);
    let mut lanes = vec![F32(0.0); 256];
    sgemm_tiled_simd(&ta, false, &tb, false, &mut lanes, Strategy::Lanes).unwrap();
    assert_eq!(lanes, naive);
}

#[test]
fn float_blocked_is_bit_identical_to_naive() {
    let a: Vec<F32> = (0..32 * 48).map(|i| F32((i % 13) as f32 * 0.1 + 0.03)).collect();
    let b: Vec<F32> = (0..48 * 32).map(|i| F32((i % 7) as f32 * 0.37 - 1.0)).collect();
    let ta = F32Tensor::new(&a, vec![32, 48]).unwrap();
    let tb = F32Tensor::new(&b, vec![48, 32]).unwrap();
    let mut naive = vec![F32(0.0); 32 * 32];
    sgemm(&ta, false, &tb, false, &mut naive).unwrap();
    let mut par = vec![F32(0.0); 32 * 32];
    sgemm_tiled_par(&ta, false, &tb, false, &mut par).unwrap();
    let naive_bits: Vec<u32> = naive.iter().map(|v| v.0.to_bits()).collect();
    let par_bits: Vec<u32> = par.iter().map(|v| v.0.to_bits()).collect();
    assert_eq!(par_bits, naive_bits);
}
