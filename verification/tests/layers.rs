use autodiff_nn::activation::{LogSoftmax, Softmax};
use autodiff_nn::batch_norm::{
    batch_norm_forward_host, batch_norm_plan, check_rank, BatchNormMode, BatchNormTrained,
};
use autodiff_nn::dict::StateDict;
use autodiff_nn::error::{AutodiffError, BackendError, ShapeError};
use autodiff_nn::fixed::{Fixed, UNITS};
use autodiff_nn::linear::linear_forward_host;
use autodiff_nn::module::{prefixed, strip_child_prefix, Module, Recorded};
use autodiff_nn::norm::{layer_norm_default_eps, rms_norm_default_eps, LayerNorm, RmsNorm};
use autodiff_nn::normalization::{
    group_norm_default_eps, group_norm_forward_host, group_norm_layout, instance_norm_default_eps,
    GroupNorm, InstanceNorm,
};
use autodiff_nn::number::{Double, Real, Single};
use autodiff_nn::optim::adam::{Adam, AdamConfig};
use autodiff_nn::padding::{build_pads, ZeroPad2d};
use autodiff_nn::pixel_shuffle::{
    pixel_shuffle_out_shape, pixel_unshuffle_out_shape, PixelShuffle, PixelUnshuffle,
};
use autodiff_nn::pooling::{pool_image, pool_signal};
use autodiff_nn::tensor::Tensor;

#[derive(Clone, Copy, PartialEq, Debug)]
struct F(f32);
#[derive(Clone, Copy, PartialEq, Debug)]
struct D(f64);

impl Real for F {
    fn literal(mantissa: i64, exponent: i32) -> F {
        F(format!("{}e{}", mantissa, exponent).parse().unwrap())
    }
    fn one_equals_one() {}
    fn extremes(self, _other: F) {}
    fn order(self, _other: F, _third: F) {}
    fn signs(self, _other: F) {}
    fn midpoint(self, _low: F, _high: F) {}
    fn unit_interval(self, _other: F) {}
    fn decimals(_low: i64, _high: i64, _places: u32) {}
    fn neutral(self, _other: F) {}
    fn fused_operands(self, _factor: F, _addend: F) {}
    fn infinity() -> F { F(f32::INFINITY) }
    fn nan() -> F { F(f32::NAN) }
    fn add(self, o: F) -> F { F(self.0 + o.0) }
    fn sub(self, o: F) -> F { F(self.0 - o.0) }
    fn mul(self, o: F) -> F { F(self.0 * o.0) }
    fn div(self, o: F) -> F { F(self.0 / o.0) }
    fn neg(self) -> F { F(-self.0) }
    fn mul_add(self, a: F, b: F) -> F { F(self.0.mul_add(a.0, b.0)) }
    fn sqrt(self) -> F { F(self.0.sqrt()) }
    fn abs(self) -> F { F(self.0.abs()) }
    fn max(self, o: F) -> F { F(self.0.max(o.0)) }
    fn min(self, o: F) -> F { F(self.0.min(o.0)) }
    fn powi(self, n: i32) -> F { F(self.0.powi(n)) }
    fn is_finite(self) -> bool { self.0.is_finite() }
    fn is_nan(self) -> bool { self.0.is_nan() }
    fn lt(self, o: F) -> bool { self.0 < o.0 }
    fn le(self, o: F) -> bool { self.0 <= o.0 }
    fn eq(self, o: F) -> bool { self.0 == o.0 }
    fn show(self) -> String { format!("{}", self.0) }
}
impl Real for D {
    fn literal(mantissa: i64, exponent: i32) -> D {
        D(format!("{}e{}", mantissa, exponent).parse().unwrap())
    }
    fn one_equals_one() {}
    fn extremes(self, _other: D) {}
    fn order(self, _other: D, _third: D) {}
    fn signs(self, _other: D) {}
    fn midpoint(self, _low: D, _high: D) {}
    fn unit_interval(self, _other: D) {}
    fn decimals(_low: i64, _high: i64, _places: u32) {}
    fn neutral(self, _other: D) {}
    fn fused_operands(self, _factor: D, _addend: D) {}
    fn infinity() -> D { D(f64::INFINITY) }
    fn nan() -> D { D(f64::NAN) }
    fn add(self, o: D) -> D { D(self.0 + o.0) }
    fn sub(self, o: D) -> D { D(self.0 - o.0) }
    fn mul(self, o: D) -> D { D(self.0 * o.0) }
    fn div(self, o: D) -> D { D(self.0 / o.0) }
    fn neg(self) -> D { D(-self.0) }
    fn mul_add(self, a: D, b: D) -> D { D(self.0.mul_add(a.0, b.0)) }
    fn sqrt(self) -> D { D(self.0.sqrt()) }
    fn abs(self) -> D { D(self.0.abs()) }
    fn max(self, o: D) -> D { D(self.0.max(o.0)) }
    fn min(self, o: D) -> D { D(self.0.min(o.0)) }
    fn powi(self, n: i32) -> D { D(self.0.powi(n)) }
    fn is_finite(self) -> bool { self.0.is_finite() }
    fn is_nan(self) -> bool { self.0.is_nan() }
    fn lt(self, o: D) -> bool { self.0 < o.0 }
    fn le(self, o: D) -> bool { self.0 <= o.0 }
    fn eq(self, o: D) -> bool { self.0 == o.0 }
    fn show(self) -> String { format!("{}", self.0) }
}
impl Double for D {
    fn of_bits_inverts_bits(self) {}
    fn integers(_n: u128) {}
    fn powers(self, _exponent: D) {}
    fn from_integer(n: u128) -> D { D(n as f64) }
    fn powf(self, e: D) -> D { D(self.0.powf(e.0)) }
    fn cos(self) -> D { D(self.0.cos()) }
    fn sin(self) -> D { D(self.0.sin()) }
    fn to_bits(self) -> u64 { self.0.to_bits() }
    fn from_bits(bits: u64) -> D { D(f64::from_bits(bits)) }
}
impl Single for F {
    type Wide = D;
    fn words_are_exact(_word: u16) {}
    fn precisions(self, _wide: D) {}
    fn binary_scaling(self, _scale: F) {}
    fn widen(self) -> D { D(self.0 as f64) }
    fn round(wide: D) -> F { F(wide.0 as f32) }
    fn from_word(word: u16) -> F { F(word as f32) }
    fn to_word(self) -> u16 { self.0 as u16 }
    fn is_integral(self) -> bool { self.0.fract() == 0.0 }
    fn is_subnormal(self) -> bool { self.0.is_subnormal() }
}


fn t(data: Vec<f32>, shape: &[usize]) -> Tensor<F> {
    Tensor::new(data.into_iter().map(F).collect(), shape).unwrap()
}

fn at(tensor: &Tensor<F>, index: &[usize]) -> f32 {
    tensor.get(index).unwrap().0
}

fn dense(tensor: &Tensor<F>) -> Vec<f32> {
    tensor.as_slice().iter().map(|x| x.0).collect()
}

fn normalized_rows(x: &Tensor<F>, eps: F, hidden: usize) -> Tensor<F> {
    let data = dense(x);
    let mut out = Vec::new();
    for row in data.chunks(hidden.max(1)) {
        let n = row.len() as f64;
        let mean = row.iter().map(|&v| v as f64).sum::<f64>() / n;
        let var = row.iter().map(|&v| (v as f64 - mean).powi(2)).sum::<f64>() / n;
        let rstd = 1.0 / (var + eps.0 as f64).sqrt();
        for &v in row {
            out.push(((v as f64 - mean) * rstd) as f32);
        }
    }
    t(out, x.shape())
}

fn layer_norm(x: &Tensor<F>, eps: F) -> Result<Tensor<F>, AutodiffError> {
    let hidden = x.shape()[x.shape().len() - 1];
    Ok(normalized_rows(x, eps, hidden))
}

fn no_layer_norm(_x: &Tensor<F>, _eps: F) -> Result<Tensor<F>, AutodiffError> {
    unreachable!()
}

fn unsupported() -> BackendError {
    BackendError::Unsupported("not offered".to_string())
}

fn ramp(n: usize) -> Vec<f32> {
    (1..=n).map(|v| v as f32).collect()
}

#[test]
fn pixel_shuffle_new_rejects_zero() {
    assert!(PixelShuffle::new(0).is_err());
}

#[test]
fn pixel_unshuffle_new_rejects_zero() {
    assert!(PixelUnshuffle::new(0).is_err());
}

#[test]
fn pixel_shuffle_r2_hand_computed_example() {
    let x = t(vec![0.0, 1.0, 2.0, 3.0], &[1, 4, 1, 1]);

    let y = PixelShuffle::new(2).unwrap().forward(&x).unwrap();
    assert_eq!(y.shape(), &[1, 1, 2, 2]);
    assert_eq!(dense(&y), vec![0.0, 1.0, 2.0, 3.0]);
}

#[test]
fn pixel_unshuffle_r2_hand_computed_example() {
    let x = t(vec![0.0, 1.0, 2.0, 3.0], &[1, 1, 2, 2]);

    let y = PixelUnshuffle::new(2).unwrap().forward(&x).unwrap();
    assert_eq!(y.shape(), &[1, 4, 1, 1]);
    assert_eq!(dense(&y), vec![0.0, 1.0, 2.0, 3.0]);
}

#[test]
fn pixel_shuffle_r1_is_identity() {
    let input = t((1..=24).map(|v| v as f32).collect(), &[2, 3, 2, 2]);

    let y = PixelShuffle::new(1).unwrap().forward(&input).unwrap();
    assert_eq!(y.shape(), input.shape());
    assert_eq!(dense(&y), dense(&input));
}

#[test]
fn pixel_shuffle_then_unshuffle_round_trips_bit_exact() {
    let input = t((1..=144).map(|v| v as f32).collect(), &[2, 8, 3, 3]);

    let shuffled = PixelShuffle::new(2).unwrap().forward(&input).unwrap();
    assert_eq!(shuffled.shape(), &[2, 2, 6, 6]);
    let restored = PixelUnshuffle::new(2).unwrap().forward(&shuffled).unwrap();
    assert_eq!(restored.shape(), input.shape());
    assert_eq!(dense(&restored), dense(&input));
}

fn naive_pixel_shuffle(
    data: &[f32],
    batch: &[usize],
    c: usize,
    r: usize,
    h: usize,
    w: usize,
) -> Vec<f32> {
    let batch_numel: usize = batch.iter().product::<usize>().max(1);
    let mut out = vec![0.0f32; batch_numel * c * (h * r) * (w * r)];
    for b in 0..batch_numel {
        for cc in 0..c {
            for hh in 0..h {
                for ww in 0..w {
                    for i in 0..r {
                        for j in 0..r {
                            let in_c = cc * r * r + i * r + j;
                            let in_idx = ((b * (c * r * r) + in_c) * h + hh) * w + ww;
                            let out_h = hh * r + i;
                            let out_w = ww * r + j;
                            let out_idx = ((b * c + cc) * (h * r) + out_h) * (w * r) + out_w;
                            out[out_idx] = data[in_idx];
                        }
                    }
                }
            }
        }
    }
    out
}

#[test]
fn pixel_shuffle_matches_naive_reference_rank3_no_batch() {
    let (c, r, h, w) = (2usize, 2usize, 2usize, 3usize);
    let data: Vec<f32> = (0..(c * r * r * h * w)).map(|v| v as f32).collect();
    let input = t(data.clone(), &[c * r * r, h, w]);

    let y = PixelShuffle::new(r).unwrap().forward(&input).unwrap();
    assert_eq!(y.shape(), &[c, h * r, w * r]);
    assert_eq!(dense(&y), naive_pixel_shuffle(&data, &[], c, r, h, w));
}

#[test]
fn pixel_shuffle_matches_naive_reference_rank5_two_batch_axes() {
    let (b0, b1, c, r, h, w) = (2usize, 3usize, 2usize, 2usize, 2usize, 2usize);
    let data: Vec<f32> = (0..(b0 * b1 * c * r * r * h * w)).map(|v| v as f32).collect();
    let input = t(data.clone(), &[b0, b1, c * r * r, h, w]);

    let y = PixelShuffle::new(r).unwrap().forward(&input).unwrap();
    assert_eq!(y.shape(), &[b0, b1, c, h * r, w * r]);
    assert_eq!(dense(&y), naive_pixel_shuffle(&data, &[b0, b1], c, r, h, w));
}

#[test]
fn pixel_shuffle_out_shape_rejects_rank_below_3() {
    assert!(pixel_shuffle_out_shape(&[4, 4], 2).is_err());
}

#[test]
fn pixel_shuffle_out_shape_rejects_non_divisible_channels() {
    assert!(pixel_shuffle_out_shape(&[3, 4, 4], 2).is_err());
}

#[test]
fn pixel_shuffle_out_shape_rejects_checked_mul_overflow() {
    assert!(pixel_shuffle_out_shape(&[4, usize::MAX, 4], 2).is_err());
    assert!(pixel_shuffle_out_shape(&[4, 4, 4], usize::MAX).is_err());
}

#[test]
fn pixel_unshuffle_out_shape_rejects_rank_below_3() {
    assert!(pixel_unshuffle_out_shape(&[4, 4], 2).is_err());
}

#[test]
fn pixel_unshuffle_out_shape_rejects_non_divisible_spatial() {
    assert!(pixel_unshuffle_out_shape(&[1, 3, 4], 2).is_err());
    assert!(pixel_unshuffle_out_shape(&[1, 4, 3], 2).is_err());
}

#[test]
fn pixel_unshuffle_out_shape_rejects_checked_mul_overflow() {
    assert!(pixel_unshuffle_out_shape(&[usize::MAX, 4, 4], 2).is_err());
}

#[test]
fn pixel_shuffle_forward_host_matches_forward() {
    let input = t((1..=144).map(|v| v as f32).collect(), &[2, 8, 3, 3]);
    let layer = PixelShuffle::new(2).unwrap();

    let via_host = layer.forward_host(&input).unwrap();
    let via_forward = layer.forward(&input).unwrap();

    assert_eq!(via_host.shape(), via_forward.shape());
    assert_eq!(dense(&via_host), dense(&via_forward));
}

#[test]
fn pixel_unshuffle_forward_host_matches_forward() {
    let input = t((1..=144).map(|v| v as f32).collect(), &[2, 2, 6, 6]);
    let layer = PixelUnshuffle::new(2).unwrap();

    let via_host = layer.forward_host(&input).unwrap();
    let via_forward = layer.forward(&input).unwrap();

    assert_eq!(via_host.shape(), via_forward.shape());
    assert_eq!(dense(&via_host), dense(&via_forward));
}

#[test]
fn pixel_shuffle_out_shape_moves_channels_into_pixels() {
    assert_eq!(pixel_shuffle_out_shape(&[2, 12, 3, 5], 2).unwrap(), vec![2, 3, 6, 10]);
    assert_eq!(pixel_unshuffle_out_shape(&[2, 3, 6, 10], 2).unwrap(), vec![2, 12, 3, 5]);
    assert_eq!(PixelShuffle::new(3).unwrap().upscale_factor(), 3);
    assert_eq!(PixelUnshuffle::new(3).unwrap().downscale_factor(), 3);
}

#[test]
fn pixel_unshuffle_then_shuffle_gives_the_image_back() {
    let input = t(ramp(72), &[1, 2, 6, 6]);
    let apart = PixelUnshuffle::new(3).unwrap().forward(&input).unwrap();
    assert_eq!(apart.shape(), &[1, 18, 2, 2]);
    let together = PixelShuffle::new(3).unwrap().forward(&apart).unwrap();
    assert_eq!(together.shape(), input.shape());
    assert_eq!(dense(&together), dense(&input));
}

#[test]
fn build_pads_rank4_places_top_bottom_left_right_on_trailing_axes() {
    let pads = build_pads(4, [1, 2, 3, 4]).unwrap();
    assert_eq!(pads, vec![(0, 0), (0, 0), (3, 4), (1, 2)]);
}

#[test]
fn build_pads_rank3_omits_batch_axis() {
    let pads = build_pads(3, [1, 2, 3, 4]).unwrap();
    assert_eq!(pads, vec![(0, 0), (3, 4), (1, 2)]);
}

#[test]
fn build_pads_rejects_rank2_and_rank5() {
    assert!(build_pads(2, [0, 0, 0, 0]).is_err());
    assert!(build_pads(5, [0, 0, 0, 0]).is_err());
}

#[test]
fn forward_matches_hand_computed_padding() {
    let x = t(vec![1.0, 2.0, 3.0, 4.0], &[1, 1, 2, 2]);
    let layer = ZeroPad2d::new([1, 0, 0, 1]);
    let y = layer.forward(&x).unwrap();
    assert_eq!(y.shape(), &[1, 1, 3, 3]);
    assert_eq!(dense(&y), vec![0.0, 1.0, 2.0, 0.0, 3.0, 4.0, 0.0, 0.0, 0.0]);
}

#[test]
fn forward_rejects_rank2_and_rank5() {
    let x2 = t(vec![1.0, 2.0], &[1, 2]);
    let layer = ZeroPad2d::uniform(1);
    assert!(layer.forward(&x2).is_err());

    let x5 = t(vec![1.0; 16], &[1, 1, 2, 2, 4]);
    assert!(layer.forward(&x5).is_err());
}

#[test]
fn forward_host_matches_forward() {
    let x = t(vec![1.0, 2.0, 3.0, 4.0], &[1, 1, 2, 2]);
    let layer = ZeroPad2d::new([1, 0, 0, 1]);

    let via_host = layer.forward_host(&x, |_, _, _| Err(unsupported())).unwrap();
    let via_forward = layer.forward(&x).unwrap();

    assert_eq!(via_host.shape(), via_forward.shape());
    assert_eq!(dense(&via_host), dense(&via_forward));
}

#[test]
fn padding_asks_the_backend_first() {
    let x = t(vec![7.0], &[1, 1, 1]);
    let layer = ZeroPad2d::uniform(1);
    assert_eq!(layer.padding(), [1, 1, 1, 1]);
    let y = layer
        .forward_host(&x, |input, pads, fill| {
            assert_eq!(dense(input), vec![7.0]);
            assert_eq!(pads, &vec![(0, 0), (1, 1), (1, 1)]);
            assert_eq!(fill, F(0.0));
            Ok(t(vec![5.0; 9], &[1, 3, 3]))
        })
        .unwrap();
    assert_eq!(dense(&y), vec![5.0; 9]);
    let wrong = layer.forward_host(&x, |_, _, _| Ok(t(vec![5.0; 9], &[9])));
    assert!(matches!(wrong, Err(AutodiffError::Backend(BackendError::ShapeMismatch(_)))));
    let failed = layer.forward_host(&x, |_, _, _| Err(BackendError::Failed("lost".to_string())));
    assert!(matches!(failed, Err(AutodiffError::Backend(BackendError::Failed(_)))));
    let x2 = t(vec![1.0, 2.0], &[1, 2]);
    assert!(layer.forward_host(&x2, |_, _, _| unreachable!()).is_err());
}

#[test]
fn padding_by_nothing_changes_nothing() {
    let x = t(ramp(12), &[2, 2, 3]);
    let y = ZeroPad2d::uniform(0).forward(&x).unwrap();
    assert_eq!(y.shape(), x.shape());
    assert_eq!(dense(&y), dense(&x));
}

#[test]
fn rms_norm_new_initializes_weight_to_ones() {
    let layer: RmsNorm<F> = RmsNorm::new(4, rms_norm_default_eps()).unwrap();
    assert_eq!(dense(layer.weight().unwrap()), vec![1.0f32; 4]);
}

#[test]
fn rms_norm_without_affine_has_no_weight() {
    let layer: RmsNorm<F> = RmsNorm::without_affine(rms_norm_default_eps()).unwrap();
    assert!(layer.weight().is_none());
}

#[test]
fn rms_norm_rejects_non_finite_eps() {
    let err = RmsNorm::new(4, F(f32::NAN)).err().unwrap();
    assert!(matches!(err, AutodiffError::InvalidArgument(_)));
}

#[test]
fn rms_norm_rejects_negative_eps() {
    let err = RmsNorm::new(4, F(-1e-5)).err().unwrap();
    assert!(matches!(err, AutodiffError::InvalidArgument(_)));
}

#[test]
fn rms_norm_from_parameters_rejects_rank_mismatch() {
    let w = t(vec![1.0f32; 4], &[2, 2]);
    let err = RmsNorm::from_parameters(w, rms_norm_default_eps()).err().unwrap();
    assert!(matches!(
        err,
        AutodiffError::Shape(ShapeError::RankMismatch { expected: 1, actual: 2 })
    ));
}

#[test]
fn layer_norm_new_initializes_weight_ones_bias_zeros() {
    let layer: LayerNorm<F> = LayerNorm::new(4, layer_norm_default_eps()).unwrap();
    assert_eq!(dense(layer.weight().unwrap()), vec![1.0f32; 4]);
    assert_eq!(dense(layer.bias().unwrap()), vec![0.0f32; 4]);
}

#[test]
fn layer_norm_without_affine_has_no_weight_or_bias() {
    let layer: LayerNorm<F> = LayerNorm::without_affine(layer_norm_default_eps()).unwrap();
    assert!(layer.weight().is_none());
    assert!(layer.bias().is_none());
}

#[test]
fn layer_norm_rejects_non_finite_eps() {
    let err = LayerNorm::new(4, F(f32::INFINITY)).err().unwrap();
    assert!(matches!(err, AutodiffError::InvalidArgument(_)));
}

#[test]
fn layer_norm_from_parameters_rejects_weight_bias_shape_mismatch() {
    let w = t(vec![1.0f32; 4], &[4]);
    let b = t(vec![0.0f32; 3], &[3]);
    let err = LayerNorm::from_parameters(Some(w), Some(b), layer_norm_default_eps()).err().unwrap();
    assert!(matches!(err, AutodiffError::Shape(ShapeError::ShapeMismatch { .. })));
}

#[test]
fn norms_have_default_constants() {
    assert_eq!(rms_norm_default_eps::<F>(), F(1e-6));
    assert_eq!(layer_norm_default_eps::<F>(), F(1e-5));
    assert_eq!(group_norm_default_eps::<F>(), F(1e-5));
    assert_eq!(instance_norm_default_eps::<F>(), F(1e-5));
    let rms: RmsNorm<F> = RmsNorm::new(2, F(0.5)).unwrap();
    assert_eq!(rms.eps(), F(0.5));
    let layer: LayerNorm<F> = LayerNorm::new(2, F(0.5)).unwrap();
    assert_eq!(layer.eps(), F(0.5));
}

#[test]
fn rms_norm_uses_the_backend_or_the_host() {
    let layer = RmsNorm::from_parameters(t(vec![2.0, 3.0], &[2]), F(0.5)).unwrap();
    let x = t(vec![1.0, 2.0, 3.0, 4.0], &[2, 2]);
    let by_backend = layer
        .forward_host(
            &x,
            Ok((2, 2)),
            |input, weight, eps| {
                assert_eq!(dense(weight.unwrap()), vec![2.0, 3.0]);
                assert_eq!(eps, F(0.5));
                Ok(input.duplicate())
            },
            |_, _, _, _, _| unreachable!(),
        )
        .unwrap();
    assert_eq!(dense(&by_backend), dense(&x));
    let by_host = layer
        .forward_host(
            &x,
            Ok((2, 2)),
            |_, _, _| Err(unsupported()),
            |_, _, _, rows, hidden| {
                assert_eq!((rows, hidden), (2, 2));
                t(vec![0.5; 4], &[2, 2])
            },
        )
        .unwrap();
    assert_eq!(dense(&by_host), vec![0.5; 4]);
    let bad = layer.forward_host(&x, Ok((1, 4)), |_, _, _| unreachable!(), |_, _, _, _, _| unreachable!());
    assert!(matches!(bad, Err(AutodiffError::Shape(ShapeError::ShapeMismatch { .. }))));
    let failed = layer.forward_host(
        &x,
        Ok((2, 2)),
        |_, _, _| Err(BackendError::Failed("lost".to_string())),
        |_, _, _, _, _| unreachable!(),
    );
    assert!(matches!(failed, Err(AutodiffError::Backend(BackendError::Failed(_)))));
    let wrong = layer.forward_host(
        &x,
        Ok((2, 2)),
        |_, _, _| Ok(t(vec![0.0; 4], &[4])),
        |_, _, _, _, _| unreachable!(),
    );
    assert!(matches!(wrong, Err(AutodiffError::Backend(BackendError::ShapeMismatch(_)))));
}

#[test]
fn layer_norm_uses_the_backend_or_the_host() {
    let layer: LayerNorm<F> = LayerNorm::new(2, F(0.5)).unwrap();
    let x = t(vec![1.0, 2.0, 3.0, 4.0], &[2, 2]);
    let by_host = layer
        .forward_host(
            &x,
            Ok((2, 2)),
            |_, _, _, _| Err(unsupported()),
            |_, weight, bias, eps, rows, hidden| {
                assert_eq!(dense(weight.unwrap()), vec![1.0, 1.0]);
                assert_eq!(dense(bias.unwrap()), vec![0.0, 0.0]);
                assert_eq!((eps, rows, hidden), (F(0.5), 2, 2));
                t(vec![0.25; 4], &[2, 2])
            },
        )
        .unwrap();
    assert_eq!(dense(&by_host), vec![0.25; 4]);
    let bad = layer.forward_host(
        &x,
        Err(ShapeError::RankMismatch { expected: 1, actual: 0 }),
        |_, _, _, _| unreachable!(),
        |_, _, _, _, _, _| unreachable!(),
    );
    assert!(matches!(bad, Err(AutodiffError::Shape(ShapeError::RankMismatch { .. }))));
}

#[test]
fn group_norm_new_rejects_zero_groups() {
    let err = GroupNorm::<F>::new(0, group_norm_default_eps()).err().unwrap();
    assert!(matches!(err, AutodiffError::InvalidArgument(_)));
}

#[test]
fn group_norm_new_rejects_non_finite_eps() {
    let err = GroupNorm::new(2, F(f32::NAN)).err().unwrap();
    assert!(matches!(err, AutodiffError::InvalidArgument(_)));
    let err = GroupNorm::new(2, F(-1e-5)).err().unwrap();
    assert!(matches!(err, AutodiffError::InvalidArgument(_)));
}

#[test]
fn instance_norm_new_rejects_non_finite_eps() {
    let err = InstanceNorm::new(F(f32::NAN)).err().unwrap();
    assert!(matches!(err, AutodiffError::InvalidArgument(_)));
    let err = InstanceNorm::new(F(-1e-5)).err().unwrap();
    assert!(matches!(err, AutodiffError::InvalidArgument(_)));
}

#[test]
fn group_norm_forward_rejects_rank_below_2() {
    let x = t(vec![1.0], &[1]);
    let layer = GroupNorm::new(1, group_norm_default_eps()).unwrap();
    let err = layer.forward(&x, no_layer_norm).err().unwrap();
    assert!(matches!(
        err,
        AutodiffError::Shape(ShapeError::RankMismatch { expected: 2, actual: 1 })
    ));
}

#[test]
fn group_norm_forward_rejects_non_divisible_channels() {
    let x = t(vec![0.0; 6], &[1, 3, 2]);
    let layer = GroupNorm::new(2, group_norm_default_eps()).unwrap();
    let err = layer.forward(&x, no_layer_norm).err().unwrap();
    assert!(matches!(err, AutodiffError::InvalidArgument(_)));
}

#[test]
fn instance_norm_forward_rejects_rank_below_3() {
    let x = t(vec![1.0, 2.0, 3.0, 4.0], &[2, 2]);
    let layer = InstanceNorm::new(instance_norm_default_eps()).unwrap();
    let err = layer.forward(&x, no_layer_norm).err().unwrap();
    assert!(matches!(
        err,
        AutodiffError::Shape(ShapeError::RankMismatch { expected: 3, actual: 2 })
    ));
}

fn hand_computed_group_norm(groups: &[Vec<f32>], eps: f32) -> Vec<f32> {
    groups
        .iter()
        .flat_map(|g| {
            let n = g.len() as f64;
            let mean = g.iter().map(|&v| v as f64).sum::<f64>() / n;
            let var = g.iter().map(|&v| (v as f64 - mean).powi(2)).sum::<f64>() / n;
            let rstd = 1.0 / (var + eps as f64).sqrt();
            g.iter().map(move |&v| ((v as f64 - mean) * rstd) as f32).collect::<Vec<_>>()
        })
        .collect()
}

#[test]
fn group_norm_forward_matches_hand_computed_values() {
    let data = vec![1.0f32, 2.0, 3.0, 4.0, 5.0, 6.0, 7.0, 8.0];
    let x = t(data.clone(), &[1, 4, 2]);
    let layer = GroupNorm::new(2, F(1e-5)).unwrap();
    let out = dense(&layer.forward(&x, layer_norm).unwrap());

    let expected = hand_computed_group_norm(&[data[0..4].to_vec(), data[4..8].to_vec()], 1e-5);
    assert_eq!(out.len(), expected.len());
    for (o, e) in out.iter().zip(expected.iter()) {
        assert!((o - e).abs() < 1e-5, "o={o} e={e}");
    }
}

#[test]
fn group_norm_groups_eq_1_matches_layer_norm_over_all_non_batch_dims() {
    let data: Vec<f32> = (0..24).map(|i| i as f32 * 0.37 - 3.0).collect();
    let shape = [2usize, 3, 4];

    let x = t(data.clone(), &shape);
    let via_group_norm =
        dense(&GroupNorm::new(1, F(1e-5)).unwrap().forward(&x, layer_norm).unwrap());

    let rows = t(data, &[2, 12]);
    let via_manual = dense(&layer_norm(&rows, F(1e-5)).unwrap());

    assert_eq!(via_group_norm, via_manual);
}

#[test]
fn group_norm_groups_eq_channels_matches_instance_norm() {
    let data: Vec<f32> = (0..24).map(|i| (i as f32 - 12.0) * 0.5).collect();
    let shape = [2usize, 4, 3];

    let x1 = t(data.clone(), &shape);
    let via_group_norm =
        dense(&GroupNorm::new(4, F(1e-5)).unwrap().forward(&x1, layer_norm).unwrap());

    let x2 = t(data, &shape);
    let via_instance_norm =
        dense(&InstanceNorm::new(F(1e-5)).unwrap().forward(&x2, layer_norm).unwrap());

    assert_eq!(via_group_norm, via_instance_norm);
}

#[test]
fn group_norm_zero_channels_returns_empty_output_with_matching_shape() {
    let x = t(vec![], &[2, 0, 3]);
    let layer = GroupNorm::new(1, group_norm_default_eps()).unwrap();
    let out = layer.forward(&x, layer_norm).unwrap();
    assert_eq!(out.shape(), &[2, 0, 3]);
}

#[test]
fn instance_norm_zero_channels_returns_input_unchanged() {
    let x = t(vec![], &[2, 0, 3]);
    let layer = InstanceNorm::new(instance_norm_default_eps()).unwrap();
    let out = layer.forward(&x, layer_norm).unwrap();
    assert_eq!(out.shape(), &[2, 0, 3]);
}

#[test]
fn group_norm_named_parameters_is_empty() {
    let layer: GroupNorm<F> = GroupNorm::new(2, group_norm_default_eps()).unwrap();
    assert!(Module::named_parameters(&layer).is_empty());
}

#[test]
fn instance_norm_named_parameters_is_empty() {
    let layer: InstanceNorm<F> = InstanceNorm::new(instance_norm_default_eps()).unwrap();
    assert!(Module::named_parameters(&layer).is_empty());
}

#[test]
fn group_norm_forward_host_matches_var_forward() {
    let shape = [2usize, 4, 3];
    let data: Vec<f32> = (0..24).map(|i| i as f32 * 0.13 - 1.5).collect();
    let layer = GroupNorm::new(2, group_norm_default_eps()).unwrap();

    let via_forward = dense(&layer.forward(&t(data.clone(), &shape), layer_norm).unwrap());
    let via_host = dense(
        &group_norm_forward_host(
            &t(data, &shape),
            layer.groups(),
            layer.eps(),
            "GroupNorm",
            |_, _| Err(unsupported()),
            |rows_of, eps, _, hidden| normalized_rows(rows_of, eps, hidden),
        )
        .unwrap(),
    );

    assert_eq!(via_forward, via_host);
}

#[test]
fn instance_norm_forward_host_matches_var_forward() {
    let shape = [2usize, 3, 3];
    let data: Vec<f32> = (0..18).map(|i| i as f32 * 0.21 - 2.0).collect();
    let layer = InstanceNorm::new(instance_norm_default_eps()).unwrap();

    let via_forward = dense(&layer.forward(&t(data.clone(), &shape), layer_norm).unwrap());
    let via_host = dense(
        &group_norm_forward_host(
            &t(data, &shape),
            shape[1],
            layer.eps(),
            "InstanceNorm",
            |_, _| Err(unsupported()),
            |rows_of, eps, _, hidden| normalized_rows(rows_of, eps, hidden),
        )
        .unwrap(),
    );

    assert_eq!(via_forward, via_host);
}

#[test]
fn groups_of_channels_become_rows() {
    assert_eq!(group_norm_layout(&[2, 6, 4], 3, "test").unwrap(), (6, 8));
    assert_eq!(group_norm_layout(&[2, 6, 4], 6, "test").unwrap(), (12, 4));
    assert!(group_norm_layout(&[usize::MAX, 2, 2], 2, "test").is_err());
    let x = t(ramp(8), &[1, 4, 2]);
    let out = group_norm_forward_host(
        &x,
        2,
        F(0.5),
        "test",
        |rows, eps| {
            assert_eq!(rows.shape(), &[2, 4]);
            assert_eq!(eps, F(0.5));
            Ok(rows.duplicate())
        },
        |_, _, _, _| unreachable!(),
    )
    .unwrap();
    assert_eq!(out.shape(), &[1, 4, 2]);
    assert_eq!(dense(&out), dense(&x));
    let wrong = group_norm_forward_host(
        &x,
        2,
        F(0.5),
        "test",
        |_, _| Ok(t(vec![0.0; 8], &[8])),
        |_, _, _, _| unreachable!(),
    );
    assert!(matches!(wrong, Err(AutodiffError::Backend(BackendError::ShapeMismatch(_)))));
}

#[test]
fn softmax_forward_host_rejects_axis_out_of_range() {
    let x = t(vec![-1.0, 2.0], &[2]);
    let softmax = Softmax::new(5);

    let result = softmax.forward_host(&x, |_, _| Err(unsupported()), |_, _| unreachable!());

    assert!(matches!(
        result,
        Err(AutodiffError::Shape(ShapeError::AxisOutOfRange { axis: 5, rank: 1 }))
    ));
}

fn wrong_shape(x: &Tensor<F>, _dim: usize) -> Result<Tensor<F>, BackendError> {
    let numel: usize = x.shape().iter().product();
    Ok(t(vec![0.0f32; numel], &[numel]))
}

#[test]
fn softmax_forward_host_rejects_wrong_shape_from_backend() {
    let x = t(vec![-1.0, 2.0, 0.5, 1.0], &[2, 2]);
    let softmax = Softmax::new(1);

    let result = softmax.forward_host(&x, wrong_shape, |_, _| unreachable!());

    assert!(matches!(result, Err(AutodiffError::Backend(BackendError::ShapeMismatch(_)))));
}

#[test]
fn log_softmax_forward_host_rejects_wrong_shape_from_backend() {
    let x = t(vec![-1.0, 2.0, 0.5, 1.0], &[2, 2]);
    let log_softmax = LogSoftmax::new(1);

    let result = log_softmax.forward_host(&x, wrong_shape, |_, _| unreachable!());

    assert!(matches!(result, Err(AutodiffError::Backend(BackendError::ShapeMismatch(_)))));
}

#[test]
fn softmax_uses_the_backend_or_the_host() {
    let x = t(vec![-1.0, 2.0, 0.5, 1.0], &[2, 2]);
    let softmax = Softmax::new(1);
    assert_eq!(softmax.dim(), 1);
    assert_eq!(LogSoftmax::new(0).dim(), 0);
    let by_backend = softmax
        .forward_host(
            &x,
            |input, dim| {
                assert_eq!(dim, 1);
                Ok(input.duplicate())
            },
            |_, _| unreachable!(),
        )
        .unwrap();
    assert_eq!(dense(&by_backend), dense(&x));
    let by_host = LogSoftmax::new(0)
        .forward_host(&x, |_, _| Err(unsupported()), |_, dim| t(vec![dim as f32; 4], &[2, 2]))
        .unwrap();
    assert_eq!(dense(&by_host), vec![0.0; 4]);
    let failed = softmax.forward_host(
        &x,
        |_, _| Err(BackendError::Failed("lost".to_string())),
        |_, _| unreachable!(),
    );
    assert!(matches!(failed, Err(AutodiffError::Backend(BackendError::Failed(_)))));
}

#[test]
fn batch_norm_without_affine_forward_host_rejects_channel_mismatch() {
    let x = t(vec![1.0, 2.0, -1.0, 0.5], &[2, 2]);
    let err = batch_norm_forward_host(
        &x,
        Ok((2, 2, 1)),
        3,
        None,
        None,
        F(1e-5),
        true,
        |_, _, _, _, _| unreachable!(),
        |_, _, _, _, _| unreachable!(),
    )
    .err()
    .unwrap();
    assert!(matches!(err, AutodiffError::Shape(ShapeError::ShapeMismatch { .. })));
}

#[test]
fn batch_norm_updates_statistics_only_in_training() {
    let x = t(vec![1.0, 2.0, -1.0, 0.5], &[2, 2]);
    let weight = t(vec![1.0, 1.0], &[2]);
    let trained = batch_norm_forward_host(
        &x,
        Ok((2, 2, 1)),
        2,
        Some(&weight),
        None,
        F(0.5),
        true,
        |input, weight, bias, eps, layout| {
            assert_eq!(dense(weight.unwrap()), vec![1.0, 1.0]);
            assert!(bias.is_none());
            assert_eq!((eps, layout), (F(0.5), (2, 2, 1)));
            Ok(BatchNormTrained {
                output: input.duplicate(),
                batch_mean: vec![F(0.0), F(1.25)],
                batch_var: vec![F(1.0), F(0.5625)],
            })
        },
        |_, _, _, _, _| unreachable!(),
    )
    .unwrap();
    let update = trained.update.unwrap();
    assert_eq!(update.mean, vec![F(0.0), F(1.25)]);
    assert_eq!(update.var, vec![F(1.0), F(0.5625)]);
    assert_eq!(update.per_channel, 2);
    let inferred = batch_norm_forward_host(
        &x,
        Ok((2, 2, 1)),
        2,
        None,
        None,
        F(0.5),
        false,
        |_, _, _, _, _| unreachable!(),
        |input, _, _, _, _| Ok(input.duplicate()),
    )
    .unwrap();
    assert!(inferred.update.is_none());
    assert_eq!(dense(&inferred.output), dense(&x));
}

#[test]
fn batch_norm_plans_are_checked() {
    assert_eq!(
        batch_norm_plan(Ok((4, 3, 2)), 3, Some(&[3]), Some(&[3]), true).unwrap(),
        BatchNormMode::Train { per_channel: 8 },
    );
    assert_eq!(
        batch_norm_plan(Ok((1, 3, 1)), 3, None, None, false).unwrap(),
        BatchNormMode::Infer,
    );
    assert!(matches!(
        batch_norm_plan(Ok((1, 3, 1)), 3, None, None, true),
        Err(AutodiffError::InvalidArgument(_)),
    ));
    assert!(matches!(
        batch_norm_plan(Ok((usize::MAX, 3, 2)), 3, None, None, true),
        Err(AutodiffError::Shape(ShapeError::ElementCountOverflow)),
    ));
    assert!(batch_norm_plan(Ok((4, 3, 2)), 3, Some(&[2]), None, true).is_err());
    assert!(batch_norm_plan(Ok((4, 3, 2)), 3, None, Some(&[3, 1]), true).is_err());
    assert!(matches!(
        batch_norm_plan(Err(ShapeError::RankMismatch { expected: 2, actual: 1 }), 3, None, None, true),
        Err(AutodiffError::Shape(ShapeError::RankMismatch { .. })),
    ));
    assert!(check_rank(&[2, 3], 3).is_ok());
    assert!(matches!(
        check_rank(&[2, 3], 4),
        Err(AutodiffError::Shape(ShapeError::RankMismatch { expected: 2, actual: 4 })),
    ));
}

#[test]
fn linear_checks_shapes_before_it_computes() {
    let x = t(vec![1.0, 2.0], &[1, 2]);
    let w = t(vec![3.0, 4.0], &[2, 1]);
    let b = t(vec![0.5], &[1]);
    let product = |_: &Tensor<F>, _: &Tensor<F>| -> Result<Tensor<F>, BackendError> {
        Ok(t(vec![11.0], &[1, 1]))
    };
    let y = linear_forward_host(
        &x,
        &w,
        Some(&b),
        |a, b| {
            assert_eq!((a, b), (&[1, 2][..], &[2, 1][..]));
            Ok(vec![1, 1])
        },
        product,
        |a, b| {
            assert_eq!((a, b), (&[1, 1][..], &[1][..]));
            Ok(vec![1, 1])
        },
        |y, bias| Ok(t(vec![at(y, &[0, 0]) + at(bias, &[0])], &[1, 1])),
    )
    .unwrap();
    assert_eq!(dense(&y), vec![11.5]);
    let bare = linear_forward_host(
        &x,
        &w,
        None,
        |_, _| Ok(vec![1, 1]),
        product,
        |_, _| unreachable!(),
        |_, _| unreachable!(),
    )
    .unwrap();
    assert_eq!(dense(&bare), vec![11.0]);
    let refused = linear_forward_host(
        &x,
        &w,
        None,
        |_, _| Err(ShapeError::RankMismatch { expected: 2, actual: 1 }),
        |_, _| unreachable!(),
        |_, _| unreachable!(),
        |_, _| unreachable!(),
    );
    assert!(matches!(refused, Err(AutodiffError::Shape(ShapeError::RankMismatch { .. }))));
    let failed = linear_forward_host(
        &x,
        &w,
        None,
        |_, _| Ok(vec![1, 1]),
        |_, _| Err(BackendError::Failed("lost".to_string())),
        |_, _| unreachable!(),
        |_, _| unreachable!(),
    );
    assert!(matches!(failed, Err(AutodiffError::Backend(BackendError::Failed(_)))));
}

#[test]
fn signals_are_pooled_as_images_of_one_row() {
    let x = t(ramp(6), &[1, 2, 3]);
    let y = pool_signal(
        &x,
        |shape| {
            assert_eq!(shape, &[1, 2, 1, 3]);
            Ok(vec![1, 2, 1, 1])
        },
        |image, to| {
            assert_eq!(image.shape(), &[1, 2, 1, 3]);
            let data = dense(image);
            Ok(t(vec![data[2], data[5]], to))
        },
    )
    .unwrap();
    assert_eq!(y.shape(), &[1, 2, 1]);
    assert_eq!(dense(&y), vec![3.0, 6.0]);
    let flat = t(ramp(6), &[6]);
    let bad = pool_signal(&flat, |_| unreachable!(), |_, _| unreachable!());
    assert!(matches!(
        bad,
        Err(AutodiffError::Shape(ShapeError::RankMismatch { expected: 3, actual: 1 })),
    ));
}

struct HalfImplementedModule {
    param: Tensor<F>,
}

impl Module<F> for HalfImplementedModule {
    fn named_parameters(&self) -> Vec<(String, &Tensor<F>)> {
        vec![("param".to_string(), &self.param)]
    }

    fn set_parameter(&mut self, name: &str, _value: Tensor<F>) -> Result<(), AutodiffError> {
        Err(AutodiffError::InvalidArgument(format!("no parameter named {name}")))
    }
}

struct Pair<A, B> {
    first: A,
    second: B,
}

impl<A: Module<F>, B: Module<F>> Module<F> for Pair<A, B> {
    fn named_parameters(&self) -> Vec<(String, &Tensor<F>)> {
        let mut out = prefixed("0", self.first.named_parameters());
        out.extend(prefixed("1", self.second.named_parameters()));
        out
    }

    fn set_parameter(&mut self, name: &str, value: Tensor<F>) -> Result<(), AutodiffError> {
        if let Some(rest) = strip_child_prefix(name, "0") {
            return self.first.set_parameter(rest, value);
        }
        if let Some(rest) = strip_child_prefix(name, "1") {
            return self.second.set_parameter(rest, value);
        }
        Err(AutodiffError::InvalidArgument(format!("no parameter named {name}")))
    }
}

#[test]
fn load_state_dict_rolls_back_earlier_success_when_later_key_fails() {
    let mut list = Pair {
        first: LayerNorm::new(2, layer_norm_default_eps()).unwrap(),
        second: HalfImplementedModule { param: t(vec![1.0f32, 2.0], &[2]) },
    };

    let before = list.state_dict();
    let mut state = before.clone();
    state.insert("0.weight".to_string(), t(vec![9.0f32; 2], &[2]));
    state.insert("1.param".to_string(), t(vec![5.0f32, 6.0], &[2]));

    let err = list.load_state_dict(state).err().unwrap();
    assert!(matches!(err, AutodiffError::InvalidArgument(_)));

    let after = list.state_dict();
    assert_eq!(before.len(), 3);
    for key in before.keys() {
        assert_eq!(dense(before.get(&key).unwrap()), dense(after.get(&key).unwrap()));
    }
}

#[test]
fn load_state_dict_fails_immediately_when_first_key_fails() {
    let mut half = HalfImplementedModule { param: t(vec![1.0f32, 2.0], &[2]) };
    let mut state = StateDict::new();
    state.insert("param".to_string(), t(vec![9.0f32, 9.0], &[2]));
    let err = half.load_state_dict(state).err().unwrap();
    assert!(matches!(err, AutodiffError::InvalidArgument(_)));
    assert_eq!(dense(&half.param), vec![1.0f32, 2.0]);
}

#[test]
fn state_of_a_layer_is_loaded_back() {
    let mut layer: LayerNorm<F> = LayerNorm::new(3, layer_norm_default_eps()).unwrap();
    let mut state = layer.state_dict();
    assert_eq!(state.len(), 2);
    state.insert("weight".to_string(), t(vec![2.0, 3.0, 4.0], &[3]));
    layer.load_state_dict(state).unwrap();
    assert_eq!(dense(layer.weight().unwrap()), vec![2.0, 3.0, 4.0]);
    assert_eq!(dense(layer.bias().unwrap()), vec![0.0, 0.0, 0.0]);
    let own = layer.state_dict();
    layer.load_state_dict(own).unwrap();
    assert_eq!(dense(layer.weight().unwrap()), vec![2.0, 3.0, 4.0]);
}

#[test]
fn state_that_does_not_fit_is_refused() {
    let mut layer: LayerNorm<F> = LayerNorm::new(3, layer_norm_default_eps()).unwrap();
    let text = |result: Result<(), AutodiffError>| match result {
        Err(AutodiffError::InvalidArgument(text)) => text,
        _ => String::new(),
    };
    assert_eq!(
        text(layer.load_state_dict(StateDict::new())),
        "Module::load_state_dict: missing keys: [\"bias\", \"weight\"]",
    );
    let mut extra = layer.state_dict();
    extra.insert("scale".to_string(), t(vec![1.0], &[1]));
    assert_eq!(
        text(layer.load_state_dict(extra)),
        "Module::load_state_dict: unexpected keys: [\"scale\"]",
    );
    let mut wide = layer.state_dict();
    wide.insert("bias".to_string(), t(vec![1.0; 4], &[4]));
    assert_eq!(
        text(layer.load_state_dict(wide)),
        "Module::load_state_dict: shape mismatch for `bias`: expected [3], got [4]",
    );
    assert_eq!(dense(layer.bias().unwrap()), vec![0.0; 3]);
}

#[test]
fn parameters_are_replaced_by_name() {
    let mut layer: RmsNorm<F> = RmsNorm::new(2, rms_norm_default_eps()).unwrap();
    layer.set_parameter("weight", t(vec![5.0, 6.0], &[2])).unwrap();
    assert_eq!(dense(layer.weight().unwrap()), vec![5.0, 6.0]);
    assert!(matches!(
        layer.set_parameter("weight", t(vec![5.0], &[1])),
        Err(AutodiffError::Shape(ShapeError::ShapeMismatch { .. })),
    ));
    assert!(matches!(
        layer.set_parameter("bias", t(vec![5.0, 6.0], &[2])),
        Err(AutodiffError::InvalidArgument(_)),
    ));
    assert_eq!(dense(layer.weight().unwrap()), vec![5.0, 6.0]);
    let names: Vec<String> = LayerNorm::<F>::new(2, layer_norm_default_eps())
        .unwrap()
        .named_parameters()
        .into_iter()
        .map(|(name, _)| name)
        .collect();
    assert_eq!(names, vec!["weight".to_string(), "bias".to_string()]);
    let mut group: GroupNorm<F> = GroupNorm::new(2, group_norm_default_eps()).unwrap();
    assert!(group.set_parameter("weight", t(vec![1.0], &[1])).is_err());
}

#[test]
fn layers_say_what_they_are() {
    let mut rms: RmsNorm<F> = RmsNorm::new(2, rms_norm_default_eps()).unwrap();
    let mut layer: LayerNorm<F> = LayerNorm::new(2, layer_norm_default_eps()).unwrap();
    assert!(rms.as_rms_norm().is_some());
    assert!(rms.as_layer_norm().is_none());
    assert!(layer.as_layer_norm().is_some());
    assert!(layer.as_rms_norm().is_none());
    assert!(rms.as_layer_norm_mut().is_none());
    rms.as_rms_norm_mut().unwrap().set_parameter("weight", t(vec![7.0, 8.0], &[2])).unwrap();
    assert_eq!(dense(rms.weight().unwrap()), vec![7.0, 8.0]);
    assert!(layer.as_layer_norm_mut().is_some());
    assert!(!layer.as_relu());
    assert!(!layer.is_pooling());
    assert!(layer.supports_forward_host());
    layer.set_training(false);
    assert!(layer.training());
}

#[test]
fn names_of_children_are_joined_and_parted() {
    let x = t(vec![1.0], &[1]);
    let listed = prefixed("block", vec![("weight".to_string(), &x)]);
    assert_eq!(listed[0].0, "block.weight");
    assert_eq!(strip_child_prefix("block.weight", "block"), Some("weight"));
    assert_eq!(strip_child_prefix("block.a.b", "block"), Some("a.b"));
    assert_eq!(strip_child_prefix("block", "block"), None);
    assert_eq!(strip_child_prefix("blockweight", "block"), None);
    assert_eq!(strip_child_prefix("10.weight", "1"), None);
    assert_eq!(strip_child_prefix("1.", "1"), Some(""));
}

#[test]
fn tensors_check_their_shape() {
    assert!(matches!(
        Tensor::new(vec![F(1.0)], &[2]),
        Err(AutodiffError::Shape(ShapeError::ElementCountMismatch { expected: 2, actual: 1 })),
    ));
    assert!(matches!(
        Tensor::<F>::new(vec![], &[usize::MAX, 2]),
        Err(AutodiffError::Shape(ShapeError::ElementCountOverflow)),
    ));
    let x = t(ramp(6), &[2, 3]);
    assert_eq!((x.rank(), x.numel()), (2, 6));
    assert_eq!(x.get(&[1, 2]), Some(F(6.0)));
    assert_eq!(x.get(&[1, 3]), None);
    assert_eq!(x.get(&[1]), None);
    assert_eq!(Tensor::scalar(F(3.0)).get(&[]), Some(F(3.0)));
}

fn fixed(units: i64) -> Fixed {
    Fixed { units }
}

#[test]
fn fixed_numbers_are_added_and_multiplied() {
    let half = Fixed::literal(5, -1);
    let two = Fixed::literal(2, 0);
    assert_eq!(half, fixed(500_000_000));
    assert_eq!(half.add(two), fixed(2_500_000_000));
    assert_eq!(half.sub(two), fixed(-1_500_000_000));
    assert_eq!(half.mul(two), fixed(UNITS));
    assert_eq!(half.div(two), fixed(250_000_000));
    assert_eq!(two.neg().abs(), two);
    assert_eq!(two.mul_add(two, half), fixed(4_500_000_000));
    assert_eq!(fixed(i64::MAX).add(two), fixed(i64::MAX));
    assert_eq!(fixed(i64::MIN).sub(two), fixed(i64::MIN));
    assert_eq!(Fixed::literal(1, 0).div(Fixed::literal(3, 0)), fixed(333_333_333));
}

#[test]
fn fixed_numbers_have_roots_and_powers() {
    let four = Fixed::literal(4, 0);
    assert_eq!(four.sqrt(), fixed(2_000_000_000));
    assert_eq!(Fixed::literal(2, 0).sqrt(), fixed(1_414_213_562));
    assert_eq!(four.powi(3), fixed(64_000_000_000));
    assert_eq!(four.powi(0), fixed(UNITS));
    assert!(four.lt(Fixed::literal(5, 0)));
    assert!(four.le(four));
    assert!(Real::eq(four, four));
    assert!(four.is_finite());
    assert!(!four.is_nan());
    assert_eq!(Fixed::from_bits(four.to_bits()), four);
    assert_eq!(Fixed::from_word(7).to_word(), 7);
}

#[test]
fn optimizers_run_on_fixed_numbers() {
    let mut adam = Adam::new(AdamConfig::<Fixed>::default()).unwrap();
    let param = Tensor::new(vec![Fixed::literal(1, 0)], &[1]).unwrap();
    let grad = Tensor::new(vec![Fixed::literal(5, -1)], &[1]).unwrap();
    let out = adam.step(&[(&param, &grad)]).unwrap();
    let next = out[0].get(&[0]).unwrap();
    assert!(next.lt(Fixed::literal(1, 0)));
    assert!(Fixed::literal(99, -2).lt(next));
    let padded = ZeroPad2d::uniform(1)
        .forward(&Tensor::new(vec![Fixed::literal(1, 0)], &[1, 1, 1]).unwrap())
        .unwrap();
    assert_eq!(padded.shape(), &[1, 3, 3]);
    assert_eq!(padded.get(&[0, 1, 1]), Some(fixed(UNITS)));
    assert_eq!(padded.get(&[0, 0, 1]), Some(fixed(0)));
}

#[test]
fn softmax_layers_have_no_parameters() {
    let mut softmax = Softmax::new(0);
    let listed: Vec<(String, &Tensor<F>)> = softmax.named_parameters();
    assert!(listed.is_empty());
    assert!(softmax.set_parameter("weight", t(vec![1.0], &[1])).is_err());
    let log_softmax = LogSoftmax::new(0);
    let state: StateDict<F> = log_softmax.state_dict();
    assert!(state.is_empty());
}

#[test]
fn images_are_pooled_to_the_planned_shape() {
    let x = t(ramp(4), &[1, 1, 2, 2]);
    let y = pool_image(
        &x,
        |shape| {
            assert_eq!(shape, &[1, 1, 2, 2]);
            Ok(vec![1, 1, 1, 1])
        },
        |image, to| Ok(t(vec![dense(image).iter().sum::<f32>() / 4.0], to)),
    )
    .unwrap();
    assert_eq!(y.shape(), &[1, 1, 1, 1]);
    assert_eq!(dense(&y), vec![2.5]);
    let refused = pool_image(
        &x,
        |_| Err(ShapeError::RankMismatch { expected: 4, actual: 3 }),
        |_, _| unreachable!(),
    );
    assert!(matches!(refused, Err(AutodiffError::Shape(ShapeError::RankMismatch { .. }))));
}

struct Journal {
    names: Vec<&'static str>,
    values: Vec<Tensor<F>>,
    frozen: &'static str,
    settings: Vec<(String, f32)>,
}

impl Module<F> for Journal {
    fn named_parameters(&self) -> Vec<(String, &Tensor<F>)> {
        self.names.iter().map(|n| n.to_string()).zip(self.values.iter()).collect()
    }

    fn set_parameter(&mut self, name: &str, value: Tensor<F>) -> Result<(), AutodiffError> {
        self.settings.push((name.to_string(), at(&value, &[0])));
        if name == self.frozen {
            return Err(AutodiffError::Shape(ShapeError::RankMismatch { expected: 7, actual: 1 }));
        }
        let i = self.names.iter().position(|n| *n == name).unwrap();
        self.values[i] = value;
        Ok(())
    }
}

#[test]
fn parameters_are_set_in_ascending_order_and_set_back_in_descending_order() {
    let mut journal = Journal {
        names: vec!["d", "a", "c", "b"],
        values: (0..4).map(|i| t(vec![i as f32], &[1])).collect(),
        frozen: "c",
        settings: Vec::new(),
    };
    let mut state = StateDict::new();
    for name in ["b", "d", "a", "c"] {
        state.insert(name.to_string(), t(vec![9.0], &[1]));
    }
    let error = journal.load_state_dict(state).err().unwrap();
    assert!(matches!(
        error,
        AutodiffError::Shape(ShapeError::RankMismatch { expected: 7, actual: 1 }),
    ));
    let settings: Vec<(&str, f32)> = journal.settings.iter().map(|(n, v)| (n.as_str(), *v)).collect();
    assert_eq!(settings, vec![("a", 9.0), ("b", 9.0), ("c", 9.0), ("b", 3.0), ("a", 1.0)]);
    let values: Vec<f32> = journal.values.iter().map(|v| at(v, &[0])).collect();
    assert_eq!(values, vec![0.0, 1.0, 2.0, 3.0]);
}

#[test]
fn unfit_state_sets_nothing() {
    let mut journal = Journal {
        names: vec!["a"],
        values: vec![t(vec![1.0], &[1])],
        frozen: "",
        settings: Vec::new(),
    };
    let mut state = StateDict::new();
    state.insert("a".to_string(), t(vec![1.0, 2.0], &[2]));
    assert!(matches!(journal.load_state_dict(state), Err(AutodiffError::InvalidArgument(_))));
    assert!(journal.settings.is_empty());
}

#[test]
fn fixed_numbers_stay_at_the_end_of_their_range() {
    let most = Fixed { units: i64::MAX };
    assert_eq!(most.add(most).div(Fixed { units: 2 * UNITS }), most);
    assert_eq!(most.div(Fixed { units: -UNITS }).units, -i64::MAX);
}

fn reason<T>(result: Result<T, AutodiffError>) -> String {
    match result {
        Err(AutodiffError::InvalidArgument(text)) => text,
        _ => String::new(),
    }
}

#[test]
fn refused_layers_are_told() {
    assert_eq!(
        reason(PixelShuffle::new(0)),
        "PixelShuffle::new: upscale_factor must not be 0",
    );
    assert_eq!(
        reason(PixelUnshuffle::new(0)),
        "PixelUnshuffle::new: downscale_factor must not be 0",
    );
    assert_eq!(
        reason(RmsNorm::new(2, F(-1.0))),
        "RmsNorm::new: eps must be finite and non-negative, got -1",
    );
    assert_eq!(
        reason(GroupNorm::new(0, group_norm_default_eps::<F>())),
        "GroupNorm::new: groups must be non-zero",
    );
    assert_eq!(
        reason(group_norm_layout(&[2, 5, 3], 2, "who")),
        "who: num_channels (5) must be divisible by groups (2)",
    );
    let mut layer = Softmax::new(1);
    assert_eq!(
        reason(Module::<F>::set_parameter(&mut layer, "w", t(vec![1.0], &[1]))),
        "Module::set_parameter: no parameter named `w` (default fail-safe; this Module does not override set_parameter)",
    );
}

#[test]
fn refused_image_shapes_are_told() {
    assert!(matches!(
        pixel_shuffle_out_shape(&[4, 4], 2),
        Err(ShapeError::RankMismatch { expected: 3, actual: 2 }),
    ));
    match pixel_shuffle_out_shape(&[1, 3, 4, 4], 2) {
        Err(ShapeError::ShapeMismatch { lhs, rhs }) => {
            assert_eq!(lhs, vec![3]);
            assert_eq!(rhs, vec![4]);
        }
        _ => panic!("the channels are not divided"),
    }
    match pixel_unshuffle_out_shape(&[1, 3, 4], 2) {
        Err(ShapeError::ShapeMismatch { lhs, rhs }) => {
            assert_eq!(lhs, vec![3, 4]);
            assert_eq!(rhs, vec![2]);
        }
        _ => panic!("the rows are not divided"),
    }
    assert!(matches!(
        pixel_unshuffle_out_shape(&[usize::MAX, 4, 4], 2),
        Err(ShapeError::ElementCountOverflow),
    ));
    let layer = PixelShuffle::new(2).unwrap();
    assert!(matches!(
        layer.forward(&t(ramp(4), &[2, 2])),
        Err(AutodiffError::Shape(ShapeError::RankMismatch { expected: 3, actual: 2 })),
    ));
}

struct Brittle {
    first: Tensor<F>,
    second: Tensor<F>,
    calls: usize,
}

impl Module<F> for Brittle {
    fn named_parameters(&self) -> Vec<(String, &Tensor<F>)> {
        vec![("a".to_string(), &self.first), ("b".to_string(), &self.second)]
    }

    fn set_parameter(&mut self, _name: &str, value: Tensor<F>) -> Result<(), AutodiffError> {
        self.calls += 1;
        if self.calls > 1 {
            return Err(AutodiffError::InvalidArgument(format!("call {}", self.calls)));
        }
        self.first = value;
        Ok(())
    }
}

#[test]
fn parameter_that_cannot_be_set_back_is_told() {
    let mut layer = Brittle { first: t(vec![1.0], &[1]), second: t(vec![2.0], &[1]), calls: 0 };
    let mut state = StateDict::new();
    state.insert("a".to_string(), t(vec![8.0], &[1]));
    state.insert("b".to_string(), t(vec![9.0], &[1]));
    assert_eq!(
        reason(layer.load_state_dict(state)),
        "Module::load_state_dict: failed to apply `b` (invalid argument: call 2), and rollback of already-applied key `a` also failed (invalid argument: call 3); the module may now be left in a partially applied state",
    );
    assert_eq!(dense(&layer.first), vec![8.0]);
}

#[test]
fn recorded_layer_behaves_as_the_layer_does() {
    let layer: LayerNorm<F> = LayerNorm::new(3, layer_norm_default_eps()).unwrap();
    let mut recorded = Recorded::new(layer);
    assert!(recorded.as_layer_norm().is_some());
    assert!(recorded.as_rms_norm().is_none());
    let mut state = recorded.state_dict();
    state.insert("weight".to_string(), t(vec![2.0, 3.0, 4.0], &[3]));
    recorded.load_state_dict(state).unwrap();
    assert_eq!(dense(recorded.module().weight().unwrap()), vec![2.0, 3.0, 4.0]);
    assert!(recorded.set_parameter("scale", t(vec![1.0], &[1])).is_err());
}

#[test]
fn errors_are_described() {
    let shape = |e: ShapeError| AutodiffError::Shape(e).describe();
    assert_eq!(AutodiffError::InvalidArgument("x".to_string()).describe(), "invalid argument: x");
    assert_eq!(
        shape(ShapeError::RankMismatch { expected: 3, actual: 12 }),
        "rank mismatch: expected 3, got 12",
    );
    assert_eq!(
        shape(ShapeError::ShapeMismatch { lhs: vec![1, 20], rhs: vec![] }),
        "shape mismatch: [1, 20] and []",
    );
    assert_eq!(
        shape(ShapeError::ElementCountMismatch { expected: 6, actual: 5 }),
        "element count mismatch: expected 6, got 5",
    );
    assert_eq!(shape(ShapeError::ElementCountOverflow), "element count overflow");
    assert_eq!(
        shape(ShapeError::AxisOutOfRange { axis: 2, rank: 1 }),
        "axis 2 is out of range for rank 1",
    );
    assert_eq!(AutodiffError::Backward("y".to_string()).describe(), "backward failed: y");
    let backend = |e: BackendError| AutodiffError::Backend(e).describe();
    assert_eq!(
        backend(BackendError::Unsupported("conv".to_string())),
        "unsupported by the backend: conv",
    );
    assert_eq!(
        backend(BackendError::ShapeMismatch(ShapeError::ElementCountOverflow)),
        "backend: element count overflow",
    );
    assert_eq!(backend(BackendError::Failed("z".to_string())), "backend failed: z");
}

#[test]
fn fixed_numbers_are_shown_in_billionths() {
    assert_eq!(Fixed { units: -25 }.show(), "-25e-9");
    assert_eq!(Fixed { units: UNITS }.show(), "1000000000e-9");
    assert_eq!(Fixed { units: i64::MIN }.show(), "-9223372036854775808e-9");
}
