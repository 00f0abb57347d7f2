use autodiff_nn::error::AutodiffError;
use autodiff_nn::number::{Double, Real, Single};
use autodiff_nn::optim::amp::{
    has_non_finite, scale_grads, scale_loss, unscale_grads, GradScaler, GradScalerConfig,
};
use autodiff_nn::optim::clip::{clip_grad_norm, clip_grad_value, global_grad_norm};
use autodiff_nn::tensor::Tensor;

#[derive(Clone, Copy, PartialEq, Debug)]
struct F(f32);
#[derive(Clone, Copy, PartialEq, Debug)]
struct D(f64);

impl Real for F {
    fn literal(mantissa: i64, exponent: i32) -> F {
        F(format!("{}e{}", mantissa, exponent).parse().unwrap())
    }
    fn one_equals_one() {}
    fn extremes(self, _other: F) {}
    fn order(self, _other: F, _third: F) {}
    fn signs(self, _other: F) {}
    fn midpoint(self, _low: F, _high: F) {}
    fn unit_interval(self, _other: F) {}
    fn decimals(_low: i64, _high: i64, _places: u32) {}
    fn neutral(self, _other: F) {}
    fn fused_operands(self, _factor: F, _addend: F) {}
    fn infinity() -> F { F(f32::INFINITY) }
    fn nan() -> F { F(f32::NAN) }
    fn add(self, o: F) -> F { F(self.0 + o.0) }
    fn sub(self, o: F) -> F { F(self.0 - o.0) }
    fn mul(self, o: F) -> F { F(self.0 * o.0) }
    fn div(self, o: F) -> F { F(self.0 / o.0) }
    fn neg(self) -> F { F(-self.0) }
    fn mul_add(self, a: F, b: F) -> F { F(self.0.mul_add(a.0, b.0)) }
    fn sqrt(self) -> F { F(self.0.sqrt()) }
    fn abs(self) -> F { F(self.0.abs()) }
    fn max(self, o: F) -> F { F(self.0.max(o.0)) }
    fn min(self, o: F) -> F { F(self.0.min(o.0)) }
    fn powi(self, n: i32) -> F { F(self.0.powi(n)) }
    fn is_finite(self) -> bool { self.0.is_finite() }
    fn is_nan(self) -> bool { self.0.is_nan() }
    fn lt(self, o: F) -> bool { self.0 < o.0 }
    fn le(self, o: F) -> bool { self.0 <= o.0 }
    fn eq(self, o: F) -> bool { self.0 == o.0 }
    fn show(self) -> String { format!("{}", self.0) }
}
impl Real for D {
    fn literal(mantissa: i64, exponent: i32) -> D {
        D(format!("{}e{}", mantissa, exponent).parse().unwrap())
    }
    fn one_equals_one() {}
    fn extremes(self, _other: D) {}
    fn order(self, _other: D, _third: D) {}
    fn signs(self, _other: D) {}
    fn midpoint(self, _low: D, _high: D) {}
    fn unit_interval(self, _other: D) {}
    fn decimals(_low: i64, _high: i64, _places: u32) {}
    fn neutral(self, _other: D) {}
    fn fused_operands(self, _factor: D, _addend: D) {}
    fn infinity() -> D { D(f64::INFINITY) }
    fn nan() -> D { D(f64::NAN) }
    fn add(self, o: D) -> D { D(self.0 + o.0) }
    fn sub(self, o: D) -> D { D(self.0 - o.0) }
    fn mul(self, o: D) -> D { D(self.0 * o.0) }
    fn div(self, o: D) -> D { D(self.0 / o.0) }
    fn neg(self) -> D { D(-self.0) }
    fn mul_add(self, a: D, b: D) -> D { D(self.0.mul_add(a.0, b.0)) }
    fn sqrt(self) -> D { D(self.0.sqrt()) }
    fn abs(self) -> D { D(self.0.abs()) }
    fn max(self, o: D) -> D { D(self.0.max(o.0)) }
    fn min(self, o: D) -> D { D(self.0.min(o.0)) }
    fn powi(self, n: i32) -> D { D(self.0.powi(n)) }
    fn is_finite(self) -> bool { self.0.is_finite() }
    fn is_nan(self) -> bool { self.0.is_nan() }
    fn lt(self, o: D) -> bool { self.0 < o.0 }
    fn le(self, o: D) -> bool { self.0 <= o.0 }
    fn eq(self, o: D) -> bool { self.0 == o.0 }
    fn show(self) -> String { format!("{}", self.0) }
}
impl Double for D {
    fn of_bits_inverts_bits(self) {}
    fn integers(_n: u128) {}
    fn powers(self, _exponent: D) {}
    fn from_integer(n: u128) -> D { D(n as f64) }
    fn powf(self, e: D) -> D { D(self.0.powf(e.0)) }
    fn cos(self) -> D { D(self.0.cos()) }
    fn sin(self) -> D { D(self.0.sin()) }
    fn to_bits(self) -> u64 { self.0.to_bits() }
    fn from_bits(bits: u64) -> D { D(f64::from_bits(bits)) }
}
impl Single for F {
    type Wide = D;
    fn words_are_exact(_word: u16) {}
    fn precisions(self, _wide: D) {}
    fn binary_scaling(self, _scale: F) {}
    fn widen(self) -> D { D(self.0 as f64) }
    fn round(wide: D) -> F { F(wide.0 as f32) }
    fn from_word(word: u16) -> F { F(word as f32) }
    fn to_word(self) -> u16 { self.0 as u16 }
    fn is_integral(self) -> bool { self.0.fract() == 0.0 }
    fn is_subnormal(self) -> bool { self.0.is_subnormal() }
}


fn t(data: Vec<f32>, shape: &[usize]) -> Tensor<F> {
    Tensor::new(data.into_iter().map(F).collect(), shape).unwrap()
}

fn at(tensor: &Tensor<F>, index: &[usize]) -> f32 {
    tensor.get(index).unwrap().0
}

fn dense(tensor: &Tensor<F>) -> Vec<f32> {
    tensor.as_slice().iter().map(|x| x.0).collect()
}

fn reason<T>(result: Result<T, AutodiffError>) -> String {
    match result {
        Err(AutodiffError::InvalidArgument(text)) => text,
        _ => String::new(),
    }
}

#[test]
fn loss_is_multiplied_by_the_scale() {
    let loss = t(vec![0.5, -1.5], &[2]);
    let scaled = scale_loss(&loss, F(8.0)).unwrap();
    assert_eq!(dense(&scaled), vec![4.0, -12.0]);
    assert_eq!(scaled.shape(), &[2]);
    assert_eq!(
        reason(scale_loss(&loss, F(0.0))),
        "scale_loss: scale must be finite and > 0.0, got 0",
    );
    assert!(scale_loss(&loss, F(f32::NAN)).is_err());
    assert!(scale_loss(&loss, F(f32::INFINITY)).is_err());
}

#[test]
fn gradients_are_multiplied_by_the_scale() {
    let a = t(vec![1.0, 2.0], &[2]);
    let b = t(vec![3.0], &[1]);
    let scaled = scale_grads(&[&a, &b], F(2.0)).unwrap();
    assert_eq!(scaled.len(), 2);
    assert_eq!(dense(&scaled[0]), vec![2.0, 4.0]);
    assert_eq!(dense(&scaled[1]), vec![6.0]);
    assert!(scale_grads(&[&a], F(-1.0)).is_err());
}

#[test]
fn unscaling_undoes_scaling_by_a_power_of_two() {
    let a = t(vec![0.1, -0.7], &[2]);
    let scaled = scale_grads(&[&a], F(1024.0)).unwrap();
    let back = unscale_grads(&[&scaled[0]], F(1024.0)).unwrap();
    assert_eq!(dense(&back.grads[0]), dense(&a));
    assert!(!back.found_non_finite);
    assert!(!back.should_skip_step());
}

#[test]
fn unscaling_reports_elements_that_are_not_finite() {
    let a = t(vec![1.0], &[1]);
    let b = t(vec![2.0, f32::INFINITY], &[2]);
    let result = unscale_grads(&[&a, &b], F(2.0)).unwrap();
    assert!(result.found_non_finite);
    assert!(result.should_skip_step());
    assert_eq!(dense(&result.grads[0]), vec![0.5]);
    assert_eq!(dense(&result.grads[1]), vec![1.0, f32::INFINITY]);
    let overflow = t(vec![1e30], &[1]);
    assert!(unscale_grads(&[&overflow], F(1e-30)).unwrap().found_non_finite);
    assert!(unscale_grads(&[&a], F(0.0)).is_err());
}

#[test]
fn elements_that_are_not_finite_are_found() {
    let a = t(vec![1.0], &[1]);
    let b = t(vec![f32::NAN], &[1]);
    assert!(!has_non_finite(&[&a]));
    assert!(has_non_finite(&[&a, &b]));
    assert!(!has_non_finite::<F>(&[]));
}

#[test]
fn scaler_has_default_settings() {
    let config = GradScalerConfig::<F>::default();
    assert_eq!(config.init_scale, F(65536.0));
    assert_eq!(config.growth_factor, F(2.0));
    assert_eq!(config.backoff_factor, F(0.5));
    assert_eq!(config.growth_interval, 2000);
    let scaler = GradScaler::new(config).unwrap();
    assert_eq!(scaler.scale(), F(65536.0));
    assert_eq!(scaler.growth_tracker(), 0);
}

#[test]
fn scaler_refuses_bad_settings() {
    let base = GradScalerConfig::<F>::default();
    assert_eq!(
        reason(GradScaler::new(GradScalerConfig { init_scale: F(0.0), ..base })),
        "GradScaler::new: init_scale must be finite and > 0.0, got 0",
    );
    assert_eq!(
        reason(GradScaler::new(GradScalerConfig { growth_factor: F(1.0), ..base })),
        "GradScaler::new: growth_factor must be finite and > 1.0, got 1",
    );
    assert_eq!(
        reason(GradScaler::new(GradScalerConfig { backoff_factor: F(1.0), ..base })),
        "GradScaler::new: backoff_factor must be finite and in (0.0, 1.0), got 1",
    );
    assert_eq!(
        reason(GradScaler::new(GradScalerConfig { growth_interval: 0, ..base })),
        "GradScaler::new: growth_interval must be >= 1, got 0",
    );
}

#[test]
fn scale_grows_after_enough_clean_steps() {
    let config = GradScalerConfig { growth_interval: 3, ..GradScalerConfig::<F>::default() };
    let mut scaler = GradScaler::new(config).unwrap();
    scaler.update(false).unwrap();
    scaler.update(false).unwrap();
    assert_eq!(scaler.growth_tracker(), 2);
    assert_eq!(scaler.scale(), F(65536.0));
    scaler.update(false).unwrap();
    assert_eq!(scaler.growth_tracker(), 0);
    assert_eq!(scaler.scale(), F(131072.0));
}

#[test]
fn scale_falls_after_gradients_that_are_not_finite() {
    let config = GradScalerConfig { growth_interval: 3, ..GradScalerConfig::<F>::default() };
    let mut scaler = GradScaler::new(config).unwrap();
    scaler.update(false).unwrap();
    scaler.update(true).unwrap();
    assert_eq!(scaler.scale(), F(32768.0));
    assert_eq!(scaler.growth_tracker(), 0);
}

#[test]
fn scale_that_cannot_grow_is_kept() {
    let config = GradScalerConfig {
        init_scale: F(3e38),
        growth_interval: 1,
        ..GradScalerConfig::<F>::default()
    };
    let mut scaler = GradScaler::new(config).unwrap();
    scaler.update(false).unwrap();
    assert_eq!(scaler.scale(), F(3e38));
    assert_eq!(scaler.growth_tracker(), 0);
}

#[test]
fn scale_that_becomes_too_small_is_refused() {
    let config = GradScalerConfig {
        init_scale: F(f32::MIN_POSITIVE),
        ..GradScalerConfig::<F>::default()
    };
    let mut scaler = GradScaler::new(config).unwrap();
    scaler.update(false).unwrap();
    assert_eq!(
        reason(scaler.update(true)),
        "GradScaler::update: backoff により scale が不正な値になった: 0.000000000000000000000000000000000000005877472",
    );
    assert_eq!(scaler.scale(), F(f32::MIN_POSITIVE));
    assert_eq!(scaler.growth_tracker(), 1);
}

#[test]
fn scaler_scales_losses_and_unscales_gradients() {
    let scaler = GradScaler::new(GradScalerConfig { init_scale: F(4.0), ..GradScalerConfig::<F>::default() })
        .unwrap();
    let loss = t(vec![1.5], &[1]);
    assert_eq!(dense(&scaler.scale_loss(&loss).unwrap()), vec![6.0]);
    let result = scaler.unscale(&[&loss]).unwrap();
    assert_eq!(dense(&result.grads[0]), vec![0.375]);
    assert!(!result.should_skip_step());
}

#[test]
fn norm_of_gradients_counts_all_elements() {
    let a = t(vec![3.0, 0.0], &[2]);
    let b = t(vec![0.0, -4.0], &[1, 2]);
    assert_eq!(global_grad_norm(&[&a, &b]).unwrap(), F(5.0));
    assert_eq!(global_grad_norm::<F>(&[]).unwrap(), F(0.0));
    let c = t(vec![f32::NAN], &[1]);
    assert_eq!(
        reason(global_grad_norm(&[&a, &c])),
        "global grad norm は非有限（勾配に NaN/Inf が含まれるか、二乗和がオーバーフローした）: NaN",
    );
}

#[test]
fn long_gradients_are_scaled_down_to_the_limit() {
    let a = t(vec![3.0], &[1]);
    let b = t(vec![4.0], &[1]);
    let result = clip_grad_norm(&[&a, &b], F(1.0)).unwrap();
    assert_eq!(result.total_norm, F(5.0));
    assert!(result.scaled);
    let factor = 1.0_f32 / (5.0 + 1e-6);
    assert_eq!(dense(&result.grads[0]), vec![3.0 * factor]);
    assert_eq!(dense(&result.grads[1]), vec![4.0 * factor]);
}

#[test]
fn short_gradients_are_left_as_they_are() {
    let a = t(vec![3.0], &[1]);
    let b = t(vec![4.0], &[1]);
    let result = clip_grad_norm(&[&a, &b], F(10.0)).unwrap();
    assert!(!result.scaled);
    assert_eq!(dense(&result.grads[0]), vec![3.0]);
    assert_eq!(dense(&result.grads[1]), vec![4.0]);
    assert_eq!(
        reason(clip_grad_norm(&[&a], F(0.0))),
        "max_norm は有限かつ正の値でなければならない: 0",
    );
    let c = t(vec![f32::INFINITY], &[1]);
    assert_eq!(
        reason(clip_grad_norm(&[&c], F(1.0))),
        "global grad norm は非有限（勾配に NaN/Inf が含まれるか、二乗和がオーバーフローした）: inf",
    );
}

#[test]
fn elements_are_brought_into_the_range() {
    let a = t(vec![-3.0, -0.5, 0.0, 0.5, 3.0], &[5]);
    let result = clip_grad_value(&[&a], F(1.0)).unwrap();
    assert_eq!(dense(&result[0]), vec![-1.0, -0.5, 0.0, 0.5, 1.0]);
    assert_eq!(
        reason(clip_grad_value(&[&a], F(-1.0))),
        "clip_value は有限かつ正の値でなければならない: -1",
    );
    let c = t(vec![1.0, f32::NEG_INFINITY, f32::NAN], &[3]);
    assert_eq!(
        reason(clip_grad_value(&[&a, &c], F(1.0))),
        "clip_grad_value に非有限の勾配要素が含まれる（NaN/Inf をクランプで隠蔽しない fail-closed 判断）: -inf",
    );
}

#[test]
fn gradients_as_long_as_the_limit_are_left_as_they_are() {
    let g = t(vec![3.0, 4.0], &[2]);
    let result = clip_grad_norm(&[&g], F(5.0)).unwrap();
    assert_eq!(result.total_norm, F(5.0));
    assert!(!result.scaled);
    assert_eq!(dense(&result.grads[0]), vec![3.0, 4.0]);
}

#[test]
fn unscaled_gradients_are_judged_alike_everywhere() {
    let fine = t(vec![0.3, -1.5e-3, 0.0, 7.0e5], &[4]);
    let scaled = scale_grads(&[&fine], F(1024.0)).unwrap();
    let back = unscale_grads(&[&scaled[0]], F(1024.0)).unwrap();
    assert_eq!(dense(&back.grads[0]), dense(&fine));
    assert!(!back.found_non_finite && !back.should_skip_step());
    assert!(!has_non_finite(&[&back.grads[0]]));
    let broken = t(vec![1.0, f32::NAN], &[2]);
    let found = unscale_grads(&[&fine, &broken], F(1024.0)).unwrap();
    assert!(found.found_non_finite && found.should_skip_step());
    assert!(has_non_finite(&[&found.grads[0], &found.grads[1]]));
}

#[test]
fn scaling_out_of_range_cannot_be_undone() {
    let large = t(vec![3.0e38], &[1]);
    let scaled = scale_grads(&[&large], F(4.0)).unwrap();
    let back = unscale_grads(&[&scaled[0]], F(4.0)).unwrap();
    assert!(back.found_non_finite);
}
