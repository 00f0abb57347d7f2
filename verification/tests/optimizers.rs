use autodiff_nn::error::AutodiffError;
use autodiff_nn::number::{Double, Real, Single};
use autodiff_nn::optim::adadelta::{Adadelta, AdadeltaConfig};
use autodiff_nn::optim::adagrad::{Adagrad, AdagradConfig};
use autodiff_nn::optim::adam::{Adam, AdamConfig};
use autodiff_nn::optim::adamax::{Adamax, AdamaxConfig};
use autodiff_nn::optim::adamw::{AdamW, AdamWConfig};
use autodiff_nn::optim::lamb::{Lamb, LambConfig};
use autodiff_nn::optim::nadam::{NAdam, NAdamConfig};
use autodiff_nn::optim::radam::{RAdam, RAdamConfig};
use autodiff_nn::optim::rmsprop::{RmsProp, RmsPropConfig};
use autodiff_nn::tensor::Tensor;

#[derive(Clone, Copy, PartialEq, Debug)]
struct F(f32);
#[derive(Clone, Copy, PartialEq, Debug)]
struct D(f64);

impl Real for F {
    fn literal(mantissa: i64, exponent: i32) -> F {
        F(format!("{}e{}", mantissa, exponent).parse().unwrap())
    }
    fn one_equals_one() {}
    fn extremes(self, _other: F) {}
    fn order(self, _other: F, _third: F) {}
    fn signs(self, _other: F) {}
    fn midpoint(self, _low: F, _high: F) {}
    fn unit_interval(self, _other: F) {}
    fn decimals(_low: i64, _high: i64, _places: u32) {}
    fn neutral(self, _other: F) {}
    fn fused_operands(self, _factor: F, _addend: F) {}
    fn infinity() -> F { F(f32::INFINITY) }
    fn nan() -> F { F(f32::NAN) }
    fn add(self, o: F) -> F { F(self.0 + o.0) }
    fn sub(self, o: F) -> F { F(self.0 - o.0) }
    fn mul(self, o: F) -> F { F(self.0 * o.0) }
    fn div(self, o: F) -> F { F(self.0 / o.0) }
    fn neg(self) -> F { F(-self.0) }
    fn mul_add(self, a: F, b: F) -> F { F(self.0.mul_add(a.0, b.0)) }
    fn sqrt(self) -> F { F(self.0.sqrt()) }
    fn abs(self) -> F { F(self.0.abs()) }
    fn max(self, o: F) -> F { F(self.0.max(o.0)) }
    fn min(self, o: F) -> F { F(self.0.min(o.0)) }
    fn powi(self, n: i32) -> F { F(self.0.powi(n)) }
    fn is_finite(self) -> bool { self.0.is_finite() }
    fn is_nan(self) -> bool { self.0.is_nan() }
    fn lt(self, o: F) -> bool { self.0 < o.0 }
    fn le(self, o: F) -> bool { self.0 <= o.0 }
    fn eq(self, o: F) -> bool { self.0 == o.0 }
    fn show(self) -> String { format!("{}", self.0) }
}
impl Real for D {
    fn literal(mantissa: i64, exponent: i32) -> D {
        D(format!("{}e{}", mantissa, exponent).parse().unwrap())
    }
    fn one_equals_one() {}
    fn extremes(self, _other: D) {}
    fn order(self, _other: D, _third: D) {}
    fn signs(self, _other: D) {}
    fn midpoint(self, _low: D, _high: D) {}
    fn unit_interval(self, _other: D) {}
    fn decimals(_low: i64, _high: i64, _places: u32) {}
    fn neutral(self, _other: D) {}
    fn fused_operands(self, _factor: D, _addend: D) {}
    fn infinity() -> D { D(f64::INFINITY) }
    fn nan() -> D { D(f64::NAN) }
    fn add(self, o: D) -> D { D(self.0 + o.0) }
    fn sub(self, o: D) -> D { D(self.0 - o.0) }
    fn mul(self, o: D) -> D { D(self.0 * o.0) }
    fn div(self, o: D) -> D { D(self.0 / o.0) }
    fn neg(self) -> D { D(-self.0) }
    fn mul_add(self, a: D, b: D) -> D { D(self.0.mul_add(a.0, b.0)) }
    fn sqrt(self) -> D { D(self.0.sqrt()) }
    fn abs(self) -> D { D(self.0.abs()) }
    fn max(self, o: D) -> D { D(self.0.max(o.0)) }
    fn min(self, o: D) -> D { D(self.0.min(o.0)) }
    fn powi(self, n: i32) -> D { D(self.0.powi(n)) }
    fn is_finite(self) -> bool { self.0.is_finite() }
    fn is_nan(self) -> bool { self.0.is_nan() }
    fn lt(self, o: D) -> bool { self.0 < o.0 }
    fn le(self, o: D) -> bool { self.0 <= o.0 }
    fn eq(self, o: D) -> bool { self.0 == o.0 }
    fn show(self) -> String { format!("{}", self.0) }
}
impl Double for D {
    fn of_bits_inverts_bits(self) {}
    fn integers(_n: u128) {}
    fn powers(self, _exponent: D) {}
    fn from_integer(n: u128) -> D { D(n as f64) }
    fn powf(self, e: D) -> D { D(self.0.powf(e.0)) }
    fn cos(self) -> D { D(self.0.cos()) }
    fn sin(self) -> D { D(self.0.sin()) }
    fn to_bits(self) -> u64 { self.0.to_bits() }
    fn from_bits(bits: u64) -> D { D(f64::from_bits(bits)) }
}
impl Single for F {
    type Wide = D;
    fn words_are_exact(_word: u16) {}
    fn precisions(self, _wide: D) {}
    fn binary_scaling(self, _scale: F) {}
    fn widen(self) -> D { D(self.0 as f64) }
    fn round(wide: D) -> F { F(wide.0 as f32) }
    fn from_word(word: u16) -> F { F(word as f32) }
    fn to_word(self) -> u16 { self.0 as u16 }
    fn is_integral(self) -> bool { self.0.fract() == 0.0 }
    fn is_subnormal(self) -> bool { self.0.is_subnormal() }
}

fn t(data: Vec<f32>, shape: &[usize]) -> Tensor<F> {
    Tensor::new(data.into_iter().map(F).collect(), shape).unwrap()
}

fn at(tensor: &Tensor<F>, index: &[usize]) -> f32 {
    tensor.get(index).unwrap().0
}

fn dense(tensor: &Tensor<F>) -> Vec<f32> {
    tensor.as_slice().iter().map(|x| x.0).collect()
}

#[test]
fn adadelta_rejects_negative_lr() {
    let cfg = AdadeltaConfig {
        lr: F(-1.0),
        ..AdadeltaConfig::default()
    };
    assert!(matches!(
        Adadelta::new(cfg),
        Err(AutodiffError::InvalidArgument(_))
    ));
}

#[test]
fn rejects_rho_out_of_range() {
    let cfg = AdadeltaConfig {
        rho: F(1.0),
        ..AdadeltaConfig::default()
    };
    assert!(matches!(
        Adadelta::new(cfg),
        Err(AutodiffError::InvalidArgument(_))
    ));
    let cfg = AdadeltaConfig {
        rho: F(-0.1),
        ..AdadeltaConfig::default()
    };
    assert!(matches!(
        Adadelta::new(cfg),
        Err(AutodiffError::InvalidArgument(_))
    ));
}

#[test]
fn adadelta_rejects_non_positive_eps() {
    let cfg = AdadeltaConfig {
        eps: F(0.0),
        ..AdadeltaConfig::default()
    };
    assert!(matches!(
        Adadelta::new(cfg),
        Err(AutodiffError::InvalidArgument(_))
    ));
}

#[test]
fn adadelta_rejects_negative_weight_decay() {
    let cfg = AdadeltaConfig {
        weight_decay: F(-0.1),
        ..AdadeltaConfig::default()
    };
    assert!(matches!(
        Adadelta::new(cfg),
        Err(AutodiffError::InvalidArgument(_))
    ));
}

#[test]
fn adadelta_rejects_nan_hyperparameter() {
    let cfg = AdadeltaConfig {
        weight_decay: F(f32::NAN),
        ..AdadeltaConfig::default()
    };
    assert!(matches!(
        Adadelta::new(cfg),
        Err(AutodiffError::InvalidArgument(_))
    ));
}

#[test]
fn adadelta_rejects_param_grad_shape_mismatch() {
    let mut opt = Adadelta::new(AdadeltaConfig::default()).unwrap();
    let param = t(vec![1.0, 2.0], &[2]);
    let grad = t(vec![1.0, 2.0, 3.0], &[3]);
    let result = opt.step(&[(&param, &grad)]);
    assert!(matches!(result, Err(AutodiffError::Shape(_))));
}

#[test]
fn adadelta_rejects_slot_count_change_after_first_step() {
    let mut opt = Adadelta::new(AdadeltaConfig::default()).unwrap();
    let param = t(vec![1.0], &[1]);
    let grad = t(vec![0.1], &[1]);
    opt.step(&[(&param, &grad)]).unwrap();
    let result = opt.step(&[]);
    assert!(matches!(result, Err(AutodiffError::InvalidArgument(_))));
}

#[test]
fn adadelta_rejects_slot_shape_change_after_first_step() {
    let mut opt = Adadelta::new(AdadeltaConfig::default()).unwrap();
    let param1 = t(vec![1.0, 2.0], &[2]);
    let grad1 = t(vec![0.1, 0.1], &[2]);
    opt.step(&[(&param1, &grad1)]).unwrap();

    let param2 = t(vec![1.0, 2.0, 3.0], &[3]);
    let grad2 = t(vec![0.1, 0.1, 0.1], &[3]);
    let result = opt.step(&[(&param2, &grad2)]);
    assert!(matches!(result, Err(AutodiffError::Shape(_))));
}

#[test]
fn adadelta_state_not_mutated_after_failed_step() {
    let mut opt = Adadelta::new(AdadeltaConfig::default()).unwrap();
    let param1 = t(vec![1.0, 2.0], &[2]);
    let grad1 = t(vec![0.1, 0.1], &[2]);
    opt.step(&[(&param1, &grad1)]).unwrap();
    let step_count_before = opt.step_count();

    let param2 = t(vec![1.0, 2.0], &[2]);
    let bad_grad = t(vec![0.1, 0.1, 0.1], &[3]);
    let result = opt.step(&[(&param2, &bad_grad)]);
    assert!(matches!(result, Err(AutodiffError::Shape(_))));
    assert_eq!(
        opt.step_count(),
        step_count_before
    );

    let mut opt_ref = Adadelta::new(AdadeltaConfig::default()).unwrap();
    opt_ref.step(&[(&param1, &grad1)]).unwrap();
    let param3 = t(vec![1.0, 2.0], &[2]);
    let grad3 = t(vec![0.1, 0.1], &[2]);
    let out_after_failed = opt.step(&[(&param3, &grad3)]).unwrap();
    let out_ref = opt_ref.step(&[(&param3, &grad3)]).unwrap();
    assert_eq!(
        dense(&out_after_failed[0]),
        dense(&out_ref[0])
    );
}

#[test]
fn adadelta_failed_first_step_does_not_poison_state_for_different_shape_retry() {
    let mut opt = Adadelta::new(AdadeltaConfig::default()).unwrap();

    let bad_param = t(vec![1.0, 2.0], &[2]);
    let bad_grad = t(vec![1.0, 2.0, 3.0], &[3]);
    let first = opt.step(&[(&bad_param, &bad_grad)]);
    assert!(matches!(first, Err(AutodiffError::Shape(_))));

    let param_a = t(vec![1.0], &[1]);
    let grad_a = t(vec![0.1], &[1]);
    let param_b = t(vec![1.0, 2.0, 3.0], &[3]);
    let grad_b = t(vec![0.1, 0.1, 0.1], &[3]);
    let second = opt.step(&[(&param_a, &grad_a), (&param_b, &grad_b)]);
    assert!(
        second.is_ok()
    );
    assert_eq!(
        opt.step_count(),
        1
    );
}

#[test]
fn zero_lr_does_not_update_param() {
    let cfg = AdadeltaConfig {
        lr: F(0.0),
        ..AdadeltaConfig::default()
    };
    let mut opt = Adadelta::new(cfg).unwrap();
    let param = t(vec![1.0, -2.0], &[2]);
    let grad = t(vec![0.3, -0.4], &[2]);
    let out = opt.step(&[(&param, &grad)]).unwrap();
    assert_eq!(at(&out[0], &[0]), 1.0);
    assert_eq!(at(&out[0], &[1]), -2.0);
}

#[test]
fn adadelta_first_step_matches_closed_form() {
    let cfg = AdadeltaConfig {
        lr: F(0.5),
        rho: F(0.9),
        eps: F(1e-6),
        weight_decay: F(0.0),
    };
    let mut opt = Adadelta::new(cfg).unwrap();
    let p0 = 0.5f32;
    let g0 = 0.3f32;
    let param = t(vec![p0], &[1]);
    let grad = t(vec![g0], &[1]);
    let out = opt.step(&[(&param, &grad)]).unwrap();

    let square_avg = (1.0 - cfg.rho.0) * g0 * g0;
    let std = (square_avg + cfg.eps.0).sqrt();
    let delta = (0.0f32 + cfg.eps.0).sqrt() / std * g0;
    let expected = p0 - cfg.lr.0 * delta;

    let actual = at(&out[0], &[0]);
    assert!(
        (actual - expected).abs() < 1e-6
    );
}

#[test]
fn adadelta_set_lr_updates_config_lr_and_keeps_other_fields() {
    let mut opt = Adadelta::new(AdadeltaConfig::default()).unwrap();
    opt.set_lr(F(0.2)).unwrap();
    let cfg = opt.config();
    assert_eq!(cfg.lr.0, 0.2);
    assert_eq!(cfg.rho.0, AdadeltaConfig::<F>::default().rho.0);
    assert_eq!(cfg.eps.0, AdadeltaConfig::<F>::default().eps.0);
    assert_eq!(cfg.weight_decay.0, AdadeltaConfig::<F>::default().weight_decay.0);
}

#[test]
fn adadelta_set_lr_rejects_negative_and_non_finite() {
    let mut opt = Adadelta::new(AdadeltaConfig::default()).unwrap();
    for bad in [-0.1, f32::NAN, f32::INFINITY, f32::NEG_INFINITY] {
        let err = opt.set_lr(F(bad)).unwrap_err();
        assert!(matches!(err, AutodiffError::InvalidArgument(_)));
        assert_eq!(opt.config().lr.0, AdadeltaConfig::<F>::default().lr.0);
    }
}

#[test]
fn set_lr_does_not_reset_step_count_or_state() {
    let mut opt = Adadelta::new(AdadeltaConfig::default()).unwrap();
    let param = t(vec![0.5], &[1]);
    let grad = t(vec![0.3], &[1]);
    opt.step(&[(&param, &grad)]).unwrap();
    assert_eq!(opt.step_count(), 1);

    opt.set_lr(F(0.1)).unwrap();
    assert_eq!(opt.step_count(), 1);
}

#[test]
fn adagrad_rejects_negative_lr() {
    let cfg = AdagradConfig {
        lr: F(-1.0),
        ..AdagradConfig::default()
    };
    assert!(matches!(
        Adagrad::new(cfg),
        Err(AutodiffError::InvalidArgument(_))
    ));
}

#[test]
fn rejects_negative_lr_decay() {
    let cfg = AdagradConfig {
        lr_decay: F(-0.1),
        ..AdagradConfig::default()
    };
    assert!(matches!(
        Adagrad::new(cfg),
        Err(AutodiffError::InvalidArgument(_))
    ));
}

#[test]
fn rejects_negative_initial_accumulator_value() {
    let cfg = AdagradConfig {
        initial_accumulator_value: F(-0.1),
        ..AdagradConfig::default()
    };
    assert!(matches!(
        Adagrad::new(cfg),
        Err(AutodiffError::InvalidArgument(_))
    ));
}

#[test]
fn adagrad_rejects_non_positive_eps() {
    let cfg = AdagradConfig {
        eps: F(0.0),
        ..AdagradConfig::default()
    };
    assert!(matches!(
        Adagrad::new(cfg),
        Err(AutodiffError::InvalidArgument(_))
    ));
}

#[test]
fn adagrad_rejects_nan_hyperparameter() {
    let cfg = AdagradConfig {
        weight_decay: F(f32::NAN),
        ..AdagradConfig::default()
    };
    assert!(matches!(
        Adagrad::new(cfg),
        Err(AutodiffError::InvalidArgument(_))
    ));
}

#[test]
fn adagrad_rejects_param_grad_shape_mismatch() {
    let mut opt = Adagrad::new(AdagradConfig::default()).unwrap();
    let param = t(vec![1.0, 2.0], &[2]);
    let grad = t(vec![1.0, 2.0, 3.0], &[3]);
    let result = opt.step(&[(&param, &grad)]);
    assert!(matches!(result, Err(AutodiffError::Shape(_))));
}

#[test]
fn adagrad_rejects_slot_count_change_after_first_step() {
    let mut opt = Adagrad::new(AdagradConfig::default()).unwrap();
    let param = t(vec![1.0], &[1]);
    let grad = t(vec![0.1], &[1]);
    opt.step(&[(&param, &grad)]).unwrap();
    let result = opt.step(&[]);
    assert!(matches!(result, Err(AutodiffError::InvalidArgument(_))));
}

#[test]
fn adagrad_rejects_slot_shape_change_after_first_step() {
    let mut opt = Adagrad::new(AdagradConfig::default()).unwrap();
    let param1 = t(vec![1.0, 2.0], &[2]);
    let grad1 = t(vec![0.1, 0.1], &[2]);
    opt.step(&[(&param1, &grad1)]).unwrap();

    let param2 = t(vec![1.0, 2.0, 3.0], &[3]);
    let grad2 = t(vec![0.1, 0.1, 0.1], &[3]);
    let result = opt.step(&[(&param2, &grad2)]);
    assert!(matches!(result, Err(AutodiffError::Shape(_))));
}

#[test]
fn adagrad_state_not_mutated_after_failed_step() {
    let mut opt = Adagrad::new(AdagradConfig::default()).unwrap();
    let param1 = t(vec![1.0, 2.0], &[2]);
    let grad1 = t(vec![0.1, 0.1], &[2]);
    opt.step(&[(&param1, &grad1)]).unwrap();
    let step_count_before = opt.step_count();

    let param2 = t(vec![1.0, 2.0], &[2]);
    let bad_grad = t(vec![0.1, 0.1, 0.1], &[3]);
    let result = opt.step(&[(&param2, &bad_grad)]);
    assert!(matches!(result, Err(AutodiffError::Shape(_))));
    assert_eq!(
        opt.step_count(),
        step_count_before
    );

    let mut opt_ref = Adagrad::new(AdagradConfig::default()).unwrap();
    opt_ref.step(&[(&param1, &grad1)]).unwrap();
    let param3 = t(vec![1.0, 2.0], &[2]);
    let grad3 = t(vec![0.1, 0.1], &[2]);
    let out_after_failed = opt.step(&[(&param3, &grad3)]).unwrap();
    let out_ref = opt_ref.step(&[(&param3, &grad3)]).unwrap();
    assert_eq!(
        dense(&out_after_failed[0]),
        dense(&out_ref[0])
    );
}

#[test]
fn lr_decay_zero_keeps_clr_equal_to_lr() {
    let cfg = AdagradConfig {
        lr: F(0.05),
        lr_decay: F(0.0),
        weight_decay: F(0.0),
        initial_accumulator_value: F(0.0),
        eps: F(1e-10),
    };
    let mut opt = Adagrad::new(cfg).unwrap();
    let p0 = 0.5f32;
    let g0 = 0.3f32;
    let param = t(vec![p0], &[1]);
    let grad = t(vec![g0], &[1]);
    let out = opt.step(&[(&param, &grad)]).unwrap();

    let state_sum = g0 * g0;
    let std = state_sum.sqrt() + cfg.eps.0;
    let expected = p0 - (cfg.lr.0 * g0) / std;

    let actual = at(&out[0], &[0]);
    assert!(
        (actual - expected).abs() < 1e-6
    );
}

#[test]
fn initial_accumulator_value_seeds_state_sum() {
    let cfg = AdagradConfig {
        lr: F(0.05),
        lr_decay: F(0.0),
        weight_decay: F(0.0),
        initial_accumulator_value: F(0.5),
        eps: F(1e-10),
    };
    let mut opt = Adagrad::new(cfg).unwrap();
    let p0 = 0.5f32;
    let g0 = 0.3f32;
    let param = t(vec![p0], &[1]);
    let grad = t(vec![g0], &[1]);
    let out = opt.step(&[(&param, &grad)]).unwrap();

    let state_sum = cfg.initial_accumulator_value.0 + g0 * g0;
    let std = state_sum.sqrt() + cfg.eps.0;
    let expected = p0 - (cfg.lr.0 * g0) / std;

    let actual = at(&out[0], &[0]);
    assert!(
        (actual - expected).abs() < 1e-6
    );
}

#[test]
fn adagrad_first_step_matches_closed_form() {
    let cfg = AdagradConfig {
        lr: F(0.05),
        lr_decay: F(0.0),
        weight_decay: F(0.0),
        initial_accumulator_value: F(0.0),
        eps: F(1e-10),
    };
    let mut opt = Adagrad::new(cfg).unwrap();
    let p0 = 0.5f32;
    let g0 = 0.3f32;
    let param = t(vec![p0], &[1]);
    let grad = t(vec![g0], &[1]);
    let out = opt.step(&[(&param, &grad)]).unwrap();

    let state_sum = g0 * g0;
    let std = state_sum.sqrt() + cfg.eps.0;
    let expected = p0 - (cfg.lr.0 * g0) / std;

    let actual = at(&out[0], &[0]);
    assert!(
        (actual - expected).abs() < 1e-6
    );
}

#[test]
fn adam_rejects_negative_lr() {
    let cfg = AdamConfig {
        lr: F(-1.0),
        ..AdamConfig::default()
    };
    assert!(matches!(
        Adam::new(cfg),
        Err(AutodiffError::InvalidArgument(_))
    ));
}

#[test]
fn adam_rejects_beta_out_of_range() {
    let cfg = AdamConfig {
        beta1: F(1.0),
        ..AdamConfig::default()
    };
    assert!(matches!(
        Adam::new(cfg),
        Err(AutodiffError::InvalidArgument(_))
    ));
    let cfg = AdamConfig {
        beta2: F(-0.1),
        ..AdamConfig::default()
    };
    assert!(matches!(
        Adam::new(cfg),
        Err(AutodiffError::InvalidArgument(_))
    ));
}

#[test]
fn adam_rejects_non_positive_eps() {
    let cfg = AdamConfig {
        eps: F(0.0),
        ..AdamConfig::default()
    };
    assert!(matches!(
        Adam::new(cfg),
        Err(AutodiffError::InvalidArgument(_))
    ));
}

#[test]
fn adam_rejects_nan_hyperparameter() {
    let cfg = AdamConfig {
        weight_decay: F(f32::NAN),
        ..AdamConfig::default()
    };
    assert!(matches!(
        Adam::new(cfg),
        Err(AutodiffError::InvalidArgument(_))
    ));
}

#[test]
fn adam_rejects_param_grad_shape_mismatch() {
    let mut opt = Adam::new(AdamConfig::default()).unwrap();
    let param = t(vec![1.0, 2.0], &[2]);
    let grad = t(vec![1.0, 2.0, 3.0], &[3]);
    let result = opt.step(&[(&param, &grad)]);
    assert!(matches!(result, Err(AutodiffError::Shape(_))));
}

#[test]
fn adam_rejects_slot_count_change_after_first_step() {
    let mut opt = Adam::new(AdamConfig::default()).unwrap();
    let param = t(vec![1.0], &[1]);
    let grad = t(vec![0.1], &[1]);
    opt.step(&[(&param, &grad)]).unwrap();
    let result = opt.step(&[]);
    assert!(matches!(result, Err(AutodiffError::InvalidArgument(_))));
}

#[test]
fn adam_rejects_slot_shape_change_after_first_step() {
    let mut opt = Adam::new(AdamConfig::default()).unwrap();
    let param1 = t(vec![1.0, 2.0], &[2]);
    let grad1 = t(vec![0.1, 0.1], &[2]);
    opt.step(&[(&param1, &grad1)]).unwrap();

    let param2 = t(vec![1.0, 2.0, 3.0], &[3]);
    let grad2 = t(vec![0.1, 0.1, 0.1], &[3]);
    let result = opt.step(&[(&param2, &grad2)]);
    assert!(matches!(result, Err(AutodiffError::Shape(_))));
}

#[test]
fn adam_state_not_mutated_after_failed_step() {
    let mut opt = Adam::new(AdamConfig::default()).unwrap();
    let param1 = t(vec![1.0, 2.0], &[2]);
    let grad1 = t(vec![0.1, 0.1], &[2]);
    opt.step(&[(&param1, &grad1)]).unwrap();
    let step_count_before = opt.step_count();

    let param2 = t(vec![1.0, 2.0], &[2]);
    let bad_grad = t(vec![0.1, 0.1, 0.1], &[3]);
    let result = opt.step(&[(&param2, &bad_grad)]);
    assert!(matches!(result, Err(AutodiffError::Shape(_))));
    assert_eq!(
        opt.step_count(),
        step_count_before
    );

    let mut opt_ref = Adam::new(AdamConfig::default()).unwrap();
    opt_ref.step(&[(&param1, &grad1)]).unwrap();
    let param3 = t(vec![1.0, 2.0], &[2]);
    let grad3 = t(vec![0.1, 0.1], &[2]);
    let out_after_failed = opt.step(&[(&param3, &grad3)]).unwrap();
    let out_ref = opt_ref.step(&[(&param3, &grad3)]).unwrap();
    assert_eq!(
        dense(&out_after_failed[0]),
        dense(&out_ref[0])
    );
}

#[test]
fn default_weight_decay_is_zero() {
    assert_eq!(AdamConfig::<F>::default().weight_decay.0, 0.0);
}

#[test]
fn first_step_matches_closed_form_with_weight_decay() {
    let cfg = AdamConfig {
        lr: F(0.05),
        beta1: F(0.9),
        beta2: F(0.999),
        eps: F(1e-8),
        weight_decay: F(0.1),
    };
    let mut opt = Adam::new(cfg).unwrap();
    let p0 = 0.5f32;
    let g0 = 0.3f32;
    let param = t(vec![p0], &[1]);
    let grad = t(vec![g0], &[1]);
    let out = opt.step(&[(&param, &grad)]).unwrap();

    let g_eff = f32::mul_add(cfg.weight_decay.0, p0, g0);
    let m = (1.0 - cfg.beta1.0) * g_eff;
    let v = (1.0 - cfg.beta2.0) * g_eff * g_eff;
    let bc1 = 1.0 - cfg.beta1.0 as f64;
    let bc2 = 1.0 - cfg.beta2.0 as f64;
    let step_size = (cfg.lr.0 as f64 / bc1) as f32;
    let denom = v.sqrt() / (bc2.sqrt() as f32) + cfg.eps.0;
    let expected = p0 - step_size * m / denom;

    let actual = at(&out[0], &[0]);
    assert!(
        (actual - expected).abs() < 1e-6
    );
}

#[test]
fn coupled_decay_with_zero_grad_moves_moments() {
    let cfg = AdamConfig {
        lr: F(0.1),
        weight_decay: F(0.2),
        ..AdamConfig::default()
    };
    let mut opt = Adam::new(cfg).unwrap();
    let param = t(vec![1.0, -2.0], &[2]);
    let grad = t(vec![0.0, 0.0], &[2]);

    let out = opt.step(&[(&param, &grad)]).unwrap();
    let decoupled_style_factor = 1.0 - cfg.lr.0 * cfg.weight_decay.0;
    let naive_decoupled_0 = at(&param, &[0]) * decoupled_style_factor;
    let actual_0 = at(&out[0], &[0]);
    assert!(
        (actual_0 - naive_decoupled_0).abs() > 1e-6
    );
}

#[test]
fn adamax_rejects_negative_lr() {
    let cfg = AdamaxConfig {
        lr: F(-1.0),
        ..AdamaxConfig::default()
    };
    assert!(matches!(
        Adamax::new(cfg),
        Err(AutodiffError::InvalidArgument(_))
    ));
}

#[test]
fn adamax_rejects_beta_out_of_range() {
    for cfg in [
        AdamaxConfig {
            beta1: F(1.0),
            ..AdamaxConfig::default()
        },
        AdamaxConfig {
            beta2: F(-0.1),
            ..AdamaxConfig::default()
        },
    ] {
        assert!(matches!(
            Adamax::new(cfg),
            Err(AutodiffError::InvalidArgument(_))
        ));
    }
}

#[test]
fn adamax_rejects_non_positive_eps() {
    let cfg = AdamaxConfig {
        eps: F(0.0),
        ..AdamaxConfig::default()
    };
    assert!(matches!(
        Adamax::new(cfg),
        Err(AutodiffError::InvalidArgument(_))
    ));
}

#[test]
fn adamax_rejects_negative_weight_decay() {
    let cfg = AdamaxConfig {
        weight_decay: F(-0.1),
        ..AdamaxConfig::default()
    };
    assert!(matches!(
        Adamax::new(cfg),
        Err(AutodiffError::InvalidArgument(_))
    ));
}

#[test]
fn adamax_rejects_nan_hyperparameter() {
    let cfg = AdamaxConfig {
        weight_decay: F(f32::NAN),
        ..AdamaxConfig::default()
    };
    assert!(matches!(
        Adamax::new(cfg),
        Err(AutodiffError::InvalidArgument(_))
    ));
}

#[test]
fn adamax_rejects_param_grad_shape_mismatch() {
    let mut opt = Adamax::new(AdamaxConfig::default()).unwrap();
    let param = t(vec![1.0, 2.0], &[2]);
    let grad = t(vec![1.0, 2.0, 3.0], &[3]);
    let result = opt.step(&[(&param, &grad)]);
    assert!(matches!(result, Err(AutodiffError::Shape(_))));
}

#[test]
fn adamax_rejects_slot_count_change_after_first_step() {
    let mut opt = Adamax::new(AdamaxConfig::default()).unwrap();
    let param = t(vec![1.0], &[1]);
    let grad = t(vec![0.1], &[1]);
    opt.step(&[(&param, &grad)]).unwrap();
    let result = opt.step(&[]);
    assert!(matches!(result, Err(AutodiffError::InvalidArgument(_))));
}

#[test]
fn adamax_rejects_slot_shape_change_after_first_step() {
    let mut opt = Adamax::new(AdamaxConfig::default()).unwrap();
    let param1 = t(vec![1.0, 2.0], &[2]);
    let grad1 = t(vec![0.1, 0.1], &[2]);
    opt.step(&[(&param1, &grad1)]).unwrap();

    let param2 = t(vec![1.0, 2.0, 3.0], &[3]);
    let grad2 = t(vec![0.1, 0.1, 0.1], &[3]);
    let result = opt.step(&[(&param2, &grad2)]);
    assert!(matches!(result, Err(AutodiffError::Shape(_))));
}

#[test]
fn adamax_state_not_mutated_after_failed_step() {
    let mut opt = Adamax::new(AdamaxConfig::default()).unwrap();
    let param1 = t(vec![1.0, 2.0], &[2]);
    let grad1 = t(vec![0.1, 0.1], &[2]);
    opt.step(&[(&param1, &grad1)]).unwrap();
    let step_count_before = opt.step_count();

    let param2 = t(vec![1.0, 2.0], &[2]);
    let bad_grad = t(vec![0.1, 0.1, 0.1], &[3]);
    let result = opt.step(&[(&param2, &bad_grad)]);
    assert!(matches!(result, Err(AutodiffError::Shape(_))));
    assert_eq!(
        opt.step_count(),
        step_count_before
    );

    let mut opt_ref = Adamax::new(AdamaxConfig::default()).unwrap();
    opt_ref.step(&[(&param1, &grad1)]).unwrap();
    let param3 = t(vec![1.0, 2.0], &[2]);
    let grad3 = t(vec![0.1, 0.1], &[2]);
    let out_after_failed = opt.step(&[(&param3, &grad3)]).unwrap();
    let out_ref = opt_ref.step(&[(&param3, &grad3)]).unwrap();
    assert_eq!(
        dense(&out_after_failed[0]),
        dense(&out_ref[0])
    );
}

#[test]
fn adamax_failed_first_step_does_not_poison_state_for_different_shape_retry() {
    let mut opt = Adamax::new(AdamaxConfig::default()).unwrap();

    let bad_param = t(vec![1.0, 2.0], &[2]);
    let bad_grad = t(vec![1.0, 2.0, 3.0], &[3]);
    let first = opt.step(&[(&bad_param, &bad_grad)]);
    assert!(matches!(first, Err(AutodiffError::Shape(_))));

    let param_a = t(vec![1.0], &[1]);
    let grad_a = t(vec![0.1], &[1]);
    let param_b = t(vec![1.0, 2.0, 3.0], &[3]);
    let grad_b = t(vec![0.1, 0.1, 0.1], &[3]);
    let second = opt.step(&[(&param_a, &grad_a), (&param_b, &grad_b)]);
    assert!(
        second.is_ok()
    );
    assert_eq!(
        opt.step_count(),
        1
    );
}

#[test]
fn exp_inf_update_propagates_nan() {
    let mut opt = Adamax::new(AdamaxConfig::default()).unwrap();
    let param = t(vec![1.0], &[1]);
    let nan_grad = t(vec![f32::NAN], &[1]);
    let out = opt.step(&[(&param, &nan_grad)]).unwrap();
    assert!(
        at(&out[0], &[0]).is_nan()
    );
}

#[test]
fn adamax_first_step_matches_closed_form() {
    let cfg = AdamaxConfig {
        lr: F(0.05),
        beta1: F(0.9),
        beta2: F(0.999),
        eps: F(1e-6),
        weight_decay: F(0.0),
    };
    let mut opt = Adamax::new(cfg).unwrap();
    let p0 = 0.5f32;
    let g0 = 0.3f32;
    let param = t(vec![p0], &[1]);
    let grad = t(vec![g0], &[1]);
    let out = opt.step(&[(&param, &grad)]).unwrap();

    let exp_avg = (1.0 - cfg.beta1.0) * g0;
    let exp_inf = g0.abs() + cfg.eps.0;
    let clr = cfg.lr.0 / (1.0 - cfg.beta1.0);
    let expected = p0 - clr * exp_avg / exp_inf;

    let actual = at(&out[0], &[0]);
    assert!(
        (actual - expected).abs() < 1e-6
    );
}

#[test]
fn adamax_set_lr_updates_config_lr_and_keeps_other_fields() {
    let mut opt = Adamax::new(AdamaxConfig::default()).unwrap();
    opt.set_lr(F(0.01)).unwrap();
    let cfg = opt.config();
    assert_eq!(cfg.lr.0, 0.01);
    assert_eq!(cfg.beta1.0, AdamaxConfig::<F>::default().beta1.0);
    assert_eq!(cfg.beta2.0, AdamaxConfig::<F>::default().beta2.0);
    assert_eq!(cfg.weight_decay.0, AdamaxConfig::<F>::default().weight_decay.0);
}

#[test]
fn adamax_set_lr_rejects_negative_and_non_finite() {
    let mut opt = Adamax::new(AdamaxConfig::default()).unwrap();
    for bad in [-0.1, f32::NAN, f32::INFINITY, f32::NEG_INFINITY] {
        let err = opt.set_lr(F(bad)).unwrap_err();
        assert!(matches!(err, AutodiffError::InvalidArgument(_)));
        assert_eq!(opt.config().lr.0, AdamaxConfig::<F>::default().lr.0);
    }
}

#[test]
fn adamax_set_lr_does_not_reset_step_count_or_moments() {
    let mut opt = Adamax::new(AdamaxConfig::default()).unwrap();
    let param = t(vec![0.5], &[1]);
    let grad = t(vec![0.3], &[1]);
    opt.step(&[(&param, &grad)]).unwrap();
    assert_eq!(opt.step_count(), 1);

    opt.set_lr(F(0.001)).unwrap();
    assert_eq!(opt.step_count(), 1);
}

#[test]
fn adamw_rejects_negative_lr() {
    let cfg = AdamWConfig {
        lr: F(-1.0),
        ..AdamWConfig::default()
    };
    assert!(matches!(
        AdamW::new(cfg),
        Err(AutodiffError::InvalidArgument(_))
    ));
}

#[test]
fn adamw_rejects_beta_out_of_range() {
    let cfg = AdamWConfig {
        beta1: F(1.0),
        ..AdamWConfig::default()
    };
    assert!(matches!(
        AdamW::new(cfg),
        Err(AutodiffError::InvalidArgument(_))
    ));
    let cfg = AdamWConfig {
        beta2: F(-0.1),
        ..AdamWConfig::default()
    };
    assert!(matches!(
        AdamW::new(cfg),
        Err(AutodiffError::InvalidArgument(_))
    ));
}

#[test]
fn adamw_rejects_non_positive_eps() {
    let cfg = AdamWConfig {
        eps: F(0.0),
        ..AdamWConfig::default()
    };
    assert!(matches!(
        AdamW::new(cfg),
        Err(AutodiffError::InvalidArgument(_))
    ));
}

#[test]
fn adamw_rejects_nan_hyperparameter() {
    let cfg = AdamWConfig {
        weight_decay: F(f32::NAN),
        ..AdamWConfig::default()
    };
    assert!(matches!(
        AdamW::new(cfg),
        Err(AutodiffError::InvalidArgument(_))
    ));
}

#[test]
fn adamw_rejects_param_grad_shape_mismatch() {
    let mut opt = AdamW::new(AdamWConfig::default()).unwrap();
    let param = t(vec![1.0, 2.0], &[2]);
    let grad = t(vec![1.0, 2.0, 3.0], &[3]);
    let result = opt.step(&[(&param, &grad)]);
    assert!(matches!(result, Err(AutodiffError::Shape(_))));
}

#[test]
fn adamw_rejects_slot_count_change_after_first_step() {
    let mut opt = AdamW::new(AdamWConfig::default()).unwrap();
    let param = t(vec![1.0], &[1]);
    let grad = t(vec![0.1], &[1]);
    opt.step(&[(&param, &grad)]).unwrap();
    let result = opt.step(&[]);
    assert!(matches!(result, Err(AutodiffError::InvalidArgument(_))));
}

#[test]
fn adamw_state_not_mutated_after_failed_step() {
    let mut opt = AdamW::new(AdamWConfig::default()).unwrap();
    let param1 = t(vec![1.0, 2.0], &[2]);
    let grad1 = t(vec![0.1, 0.1], &[2]);
    opt.step(&[(&param1, &grad1)]).unwrap();
    let step_count_before = opt.step_count();

    let param2 = t(vec![1.0, 2.0], &[2]);
    let bad_grad = t(vec![0.1, 0.1, 0.1], &[3]);
    let result = opt.step(&[(&param2, &bad_grad)]);
    assert!(matches!(result, Err(AutodiffError::Shape(_))));
    assert_eq!(
        opt.step_count(),
        step_count_before
    );

    let mut opt_ref = AdamW::new(AdamWConfig::default()).unwrap();
    opt_ref.step(&[(&param1, &grad1)]).unwrap();
    let param3 = t(vec![1.0, 2.0], &[2]);
    let grad3 = t(vec![0.1, 0.1], &[2]);
    let out_after_failed = opt.step(&[(&param3, &grad3)]).unwrap();
    let out_ref = opt_ref.step(&[(&param3, &grad3)]).unwrap();
    assert_eq!(dense(&out_after_failed[0]), dense(&out_ref[0]));
}

#[test]
fn adamw_rejects_slot_shape_change_after_first_step() {
    let mut opt = AdamW::new(AdamWConfig::default()).unwrap();
    let param1 = t(vec![1.0, 2.0], &[2]);
    let grad1 = t(vec![0.1, 0.1], &[2]);
    opt.step(&[(&param1, &grad1)]).unwrap();

    let param2 = t(vec![1.0, 2.0, 3.0], &[3]);
    let grad2 = t(vec![0.1, 0.1, 0.1], &[3]);
    let result = opt.step(&[(&param2, &grad2)]);
    assert!(matches!(result, Err(AutodiffError::Shape(_))));
}

#[test]
fn decoupled_weight_decay_without_grad() {
    let cfg = AdamWConfig {
        lr: F(0.1),
        weight_decay: F(0.2),
        ..AdamWConfig::default()
    };
    let mut opt = AdamW::new(cfg).unwrap();
    let mut param = t(vec![1.0, -2.0], &[2]);
    let grad = t(vec![0.0, 0.0], &[2]);

    let decay_factor = 1.0 - cfg.lr.0 * cfg.weight_decay.0;
    for _ in 0..5 {
        let out = opt.step(&[(&param, &grad)]).unwrap();
        let expected: Vec<f32> = (0..param.numel())
            .map(|i| at(&param, &[i]) * decay_factor)
            .collect();
        let actual: Vec<f32> = (0..out[0].numel())
            .map(|i| at(&out[0], &[i]))
            .collect();
        for (a, e) in actual.iter().zip(expected.iter()) {
            assert!(
                (a - e).abs() < 1e-6
    );
        }
        param = out.into_iter().next().unwrap();
    }
}

#[test]
fn weight_decay_zero_reduces_to_adam() {
    let cfg = AdamWConfig {
        weight_decay: F(0.0),
        ..AdamWConfig::default()
    };
    let mut opt = AdamW::new(cfg).unwrap();
    let param = t(vec![1.0], &[1]);
    let grad = t(vec![0.0], &[1]);
    let out = opt.step(&[(&param, &grad)]).unwrap();
    assert_eq!(at(&out[0], &[0]), 1.0);
}

#[test]
fn adamw_first_step_matches_closed_form() {
    let cfg = AdamWConfig {
        lr: F(0.05),
        beta1: F(0.9),
        beta2: F(0.999),
        eps: F(1e-8),
        weight_decay: F(0.0),
    };
    let mut opt = AdamW::new(cfg).unwrap();
    let p0 = 0.5f32;
    let g0 = 0.3f32;
    let param = t(vec![p0], &[1]);
    let grad = t(vec![g0], &[1]);
    let out = opt.step(&[(&param, &grad)]).unwrap();

    let m = (1.0 - cfg.beta1.0) * g0;
    let v = (1.0 - cfg.beta2.0) * g0 * g0;
    let bc1 = 1.0 - cfg.beta1.0 as f64;
    let bc2 = 1.0 - cfg.beta2.0 as f64;
    let step_size = (cfg.lr.0 as f64 / bc1) as f32;
    let denom = v.sqrt() / (bc2.sqrt() as f32) + cfg.eps.0;
    let expected = p0 - step_size * m / denom;

    let actual = at(&out[0], &[0]);
    assert!(
        (actual - expected).abs() < 1e-6
    );
}

#[test]
fn lamb_rejects_negative_lr() {
    let cfg = LambConfig {
        lr: F(-1.0),
        ..LambConfig::default()
    };
    assert!(matches!(
        Lamb::new(cfg),
        Err(AutodiffError::InvalidArgument(_))
    ));
}

#[test]
fn lamb_rejects_beta_out_of_range() {
    let cfg = LambConfig {
        beta1: F(1.0),
        ..LambConfig::default()
    };
    assert!(matches!(
        Lamb::new(cfg),
        Err(AutodiffError::InvalidArgument(_))
    ));
    let cfg = LambConfig {
        beta2: F(-0.1),
        ..LambConfig::default()
    };
    assert!(matches!(
        Lamb::new(cfg),
        Err(AutodiffError::InvalidArgument(_))
    ));
}

#[test]
fn lamb_rejects_non_positive_eps() {
    let cfg = LambConfig {
        eps: F(0.0),
        ..LambConfig::default()
    };
    assert!(matches!(
        Lamb::new(cfg),
        Err(AutodiffError::InvalidArgument(_))
    ));
}

#[test]
fn lamb_rejects_nan_hyperparameter() {
    let cfg = LambConfig {
        weight_decay: F(f32::NAN),
        ..LambConfig::default()
    };
    assert!(matches!(
        Lamb::new(cfg),
        Err(AutodiffError::InvalidArgument(_))
    ));
}

#[test]
fn lamb_rejects_param_grad_shape_mismatch() {
    let mut opt = Lamb::new(LambConfig::default()).unwrap();
    let param = t(vec![1.0, 2.0], &[2]);
    let grad = t(vec![1.0, 2.0, 3.0], &[3]);
    let result = opt.step(&[(&param, &grad)]);
    assert!(matches!(result, Err(AutodiffError::Shape(_))));
}

#[test]
fn lamb_rejects_slot_count_change_after_first_step() {
    let mut opt = Lamb::new(LambConfig::default()).unwrap();
    let param = t(vec![1.0], &[1]);
    let grad = t(vec![0.1], &[1]);
    opt.step(&[(&param, &grad)]).unwrap();
    let result = opt.step(&[]);
    assert!(matches!(result, Err(AutodiffError::InvalidArgument(_))));
}

#[test]
fn lamb_rejects_slot_shape_change_after_first_step() {
    let mut opt = Lamb::new(LambConfig::default()).unwrap();
    let param1 = t(vec![1.0, 2.0], &[2]);
    let grad1 = t(vec![0.1, 0.1], &[2]);
    opt.step(&[(&param1, &grad1)]).unwrap();

    let param2 = t(vec![1.0, 2.0, 3.0], &[3]);
    let grad2 = t(vec![0.1, 0.1, 0.1], &[3]);
    let result = opt.step(&[(&param2, &grad2)]);
    assert!(matches!(result, Err(AutodiffError::Shape(_))));
}

#[test]
fn non_finite_grad_is_rejected() {
    let mut opt = Lamb::new(LambConfig::default()).unwrap();
    let param = t(vec![1.0, 2.0], &[2]);
    let grad = t(vec![f32::NAN, 0.1], &[2]);
    let result = opt.step(&[(&param, &grad)]);
    assert!(matches!(result, Err(AutodiffError::InvalidArgument(_))));
    assert_eq!(
        opt.step_count(),
        0
    );

    let grad_inf = t(vec![f32::INFINITY, 0.1], &[2]);
    let result_inf = opt.step(&[(&param, &grad_inf)]);
    assert!(matches!(result_inf, Err(AutodiffError::InvalidArgument(_))));
    assert_eq!(opt.step_count(), 0);
}

#[test]
fn non_finite_second_moment_from_extreme_finite_grad_is_rejected_without_state_corruption() {
    let mut opt = Lamb::new(LambConfig::default()).unwrap();
    let param = t(vec![1.0], &[1]);
    let grad_extreme = t(vec![1e30_f32], &[1]);

    let result = opt.step(&[(&param, &grad_extreme)]);
    assert!(
        matches!(result, Err(AutodiffError::InvalidArgument(_)))
    );
    assert_eq!(
        opt.step_count(),
        0
    );

    let grad_normal = t(vec![0.1_f32], &[1]);
    let updated = opt
        .step(&[(&param, &grad_normal)])
        .unwrap();
    assert_eq!(updated.len(), 1);
    assert_eq!(opt.step_count(), 1);
    assert!(
        at(&updated[0], &[0]).is_finite()
    );
}

#[test]
fn lamb_state_not_mutated_after_failed_step() {
    let mut opt = Lamb::new(LambConfig::default()).unwrap();
    let bad_param = t(vec![1.0, 2.0, 3.0], &[3]);
    let bad_grad = t(vec![0.1, 0.2], &[2]);
    let err = opt.step(&[(&bad_param, &bad_grad)]);
    assert!(matches!(err, Err(AutodiffError::Shape(_))));
    assert_eq!(opt.step_count(), 0);

    let other_param = t(vec![10.0, 20.0], &[2]);
    let other_grad = t(vec![0.1, 0.2], &[2]);
    let updated = opt
        .step(&[(&other_param, &other_grad)])
        .unwrap();
    assert_eq!(updated.len(), 1);
    assert_eq!(opt.step_count(), 1);

    let mut opt2 = Lamb::new(LambConfig::default()).unwrap();
    let nan_param = t(vec![1.0, 2.0, 3.0], &[3]);
    let nan_grad = t(vec![f32::NAN, 0.1, 0.2], &[3]);
    let err2 = opt2.step(&[(&nan_param, &nan_grad)]);
    assert!(matches!(err2, Err(AutodiffError::InvalidArgument(_))));
    assert_eq!(opt2.step_count(), 0);

    let other_param2 = t(vec![5.0, 6.0], &[2]);
    let other_grad2 = t(vec![0.1, 0.2], &[2]);
    let updated2 = opt2
        .step(&[(&other_param2, &other_grad2)])
        .unwrap();
    assert_eq!(updated2.len(), 1);
    assert_eq!(opt2.step_count(), 1);
}

#[test]
fn zero_norm_param_falls_back_to_trust_ratio_one() {
    let cfg = LambConfig {
        weight_decay: F(0.0),
        ..LambConfig::default()
    };
    let mut lamb = Lamb::new(cfg).unwrap();
    let mut adamw = AdamW::new(AdamWConfig {
        lr: F(cfg.lr.0),
        beta1: F(cfg.beta1.0),
        beta2: F(cfg.beta2.0),
        eps: F(cfg.eps.0),
        weight_decay: F(0.0),
    })
    .unwrap();

    let param = t(vec![0.0, 0.0, 0.0], &[3]);
    let grad = t(vec![0.3, -0.2, 0.1], &[3]);

    let lamb_out = lamb.step(&[(&param, &grad)]).unwrap();
    let adamw_out = adamw.step(&[(&param, &grad)]).unwrap();

    for i in 0..3 {
        let a = at(&lamb_out[0], &[i]);
        let b = at(&adamw_out[0], &[i]);
        assert_eq!(
            a.to_bits(),
            b.to_bits()
    );
    }
}

#[test]
fn lr_zero_yields_no_update() {
    let cfg = LambConfig {
        lr: F(0.0),
        ..LambConfig::default()
    };
    let mut opt = Lamb::new(cfg).unwrap();
    let param = t(vec![1.0, -2.0, 3.0], &[3]);
    let grad = t(vec![0.3, -0.2, 0.1], &[3]);

    let out = opt.step(&[(&param, &grad)]).unwrap();
    for i in 0..3 {
        assert_eq!(
            at(&out[0], &[i]).to_bits(),
            at(&param, &[i]).to_bits()
    );
    }
}

#[test]
fn nadam_rejects_negative_lr() {
    let cfg = NAdamConfig {
        lr: F(-1.0),
        ..NAdamConfig::default()
    };
    assert!(matches!(
        NAdam::new(cfg),
        Err(AutodiffError::InvalidArgument(_))
    ));
}

#[test]
fn nadam_rejects_beta_out_of_range() {
    for cfg in [
        NAdamConfig {
            beta1: F(1.0),
            ..NAdamConfig::default()
        },
        NAdamConfig {
            beta2: F(-0.1),
            ..NAdamConfig::default()
        },
    ] {
        assert!(matches!(
            NAdam::new(cfg),
            Err(AutodiffError::InvalidArgument(_))
        ));
    }
}

#[test]
fn nadam_rejects_non_positive_eps() {
    let cfg = NAdamConfig {
        eps: F(0.0),
        ..NAdamConfig::default()
    };
    assert!(matches!(
        NAdam::new(cfg),
        Err(AutodiffError::InvalidArgument(_))
    ));
}

#[test]
fn rejects_negative_momentum_decay() {
    let cfg = NAdamConfig {
        momentum_decay: F(-0.1),
        ..NAdamConfig::default()
    };
    assert!(matches!(
        NAdam::new(cfg),
        Err(AutodiffError::InvalidArgument(_))
    ));
}

#[test]
fn nadam_rejects_nan_hyperparameter() {
    let cfg = NAdamConfig {
        weight_decay: F(f32::NAN),
        ..NAdamConfig::default()
    };
    assert!(matches!(
        NAdam::new(cfg),
        Err(AutodiffError::InvalidArgument(_))
    ));
}

#[test]
fn nadam_rejects_param_grad_shape_mismatch() {
    let mut opt = NAdam::new(NAdamConfig::default()).unwrap();
    let param = t(vec![1.0, 2.0], &[2]);
    let grad = t(vec![1.0, 2.0, 3.0], &[3]);
    let result = opt.step(&[(&param, &grad)]);
    assert!(matches!(result, Err(AutodiffError::Shape(_))));
}

#[test]
fn nadam_rejects_slot_count_change_after_first_step() {
    let mut opt = NAdam::new(NAdamConfig::default()).unwrap();
    let param = t(vec![1.0], &[1]);
    let grad = t(vec![0.1], &[1]);
    opt.step(&[(&param, &grad)]).unwrap();
    let result = opt.step(&[]);
    assert!(matches!(result, Err(AutodiffError::InvalidArgument(_))));
}

#[test]
fn nadam_rejects_slot_shape_change_after_first_step() {
    let mut opt = NAdam::new(NAdamConfig::default()).unwrap();
    let param1 = t(vec![1.0, 2.0], &[2]);
    let grad1 = t(vec![0.1, 0.1], &[2]);
    opt.step(&[(&param1, &grad1)]).unwrap();

    let param2 = t(vec![1.0, 2.0, 3.0], &[3]);
    let grad2 = t(vec![0.1, 0.1, 0.1], &[3]);
    let result = opt.step(&[(&param2, &grad2)]);
    assert!(matches!(result, Err(AutodiffError::Shape(_))));
}

#[test]
fn nadam_state_not_mutated_after_failed_step() {
    let mut opt = NAdam::new(NAdamConfig::default()).unwrap();
    let param1 = t(vec![1.0, 2.0], &[2]);
    let grad1 = t(vec![0.1, 0.1], &[2]);
    opt.step(&[(&param1, &grad1)]).unwrap();
    let step_count_before = opt.step_count();

    let param2 = t(vec![1.0, 2.0], &[2]);
    let bad_grad = t(vec![0.1, 0.1, 0.1], &[3]);
    let result = opt.step(&[(&param2, &bad_grad)]);
    assert!(matches!(result, Err(AutodiffError::Shape(_))));
    assert_eq!(
        opt.step_count(),
        step_count_before
    );

    let mut opt_ref = NAdam::new(NAdamConfig::default()).unwrap();
    opt_ref.step(&[(&param1, &grad1)]).unwrap();
    let param3 = t(vec![1.0, 2.0], &[2]);
    let grad3 = t(vec![0.1, 0.1], &[2]);
    let out_after_failed = opt.step(&[(&param3, &grad3)]).unwrap();
    let out_ref = opt_ref.step(&[(&param3, &grad3)]).unwrap();
    assert_eq!(
        dense(&out_after_failed[0]),
        dense(&out_ref[0])
    );
}

#[test]
fn nadam_failed_first_step_does_not_poison_state_for_different_shape_retry() {
    let mut opt = NAdam::new(NAdamConfig::default()).unwrap();

    let bad_param = t(vec![1.0, 2.0], &[2]);
    let bad_grad = t(vec![1.0, 2.0, 3.0], &[3]);
    let first = opt.step(&[(&bad_param, &bad_grad)]);
    assert!(matches!(first, Err(AutodiffError::Shape(_))));

    let param_a = t(vec![1.0], &[1]);
    let grad_a = t(vec![0.1], &[1]);
    let param_b = t(vec![1.0, 2.0, 3.0], &[3]);
    let grad_b = t(vec![0.1, 0.1, 0.1], &[3]);
    let second = opt.step(&[(&param_a, &grad_a), (&param_b, &grad_b)]);
    assert!(
        second.is_ok()
    );
    assert_eq!(
        opt.step_count(),
        1
    );
}

#[test]
fn nadam_decoupled_weight_decay_with_zero_grad_scales_param() {
    let cfg = NAdamConfig {
        lr: F(0.1),
        weight_decay: F(0.5),
        decoupled_weight_decay: true,
        ..NAdamConfig::default()
    };
    let mut opt = NAdam::new(cfg).unwrap();
    let param = t(vec![2.0], &[1]);
    let grad = t(vec![0.0], &[1]);
    let out = opt.step(&[(&param, &grad)]).unwrap();
    let expected = 2.0 * (1.0 - cfg.lr.0 * cfg.weight_decay.0);
    let actual = at(&out[0], &[0]);
    assert!(
        (actual - expected).abs() < 1e-6
    );
}

#[test]
fn nadam_set_lr_updates_config_lr_and_keeps_other_fields() {
    let mut opt = NAdam::new(NAdamConfig::default()).unwrap();
    opt.set_lr(F(0.01)).unwrap();
    let cfg = opt.config();
    assert_eq!(cfg.lr.0, 0.01);
    assert_eq!(cfg.beta1.0, NAdamConfig::<F>::default().beta1.0);
    assert_eq!(cfg.beta2.0, NAdamConfig::<F>::default().beta2.0);
    assert_eq!(cfg.momentum_decay.0, NAdamConfig::<F>::default().momentum_decay.0);
}

#[test]
fn nadam_set_lr_rejects_negative_and_non_finite() {
    let mut opt = NAdam::new(NAdamConfig::default()).unwrap();
    for bad in [-0.1, f32::NAN, f32::INFINITY, f32::NEG_INFINITY] {
        let err = opt.set_lr(F(bad)).unwrap_err();
        assert!(matches!(err, AutodiffError::InvalidArgument(_)));
        assert_eq!(opt.config().lr.0, NAdamConfig::<F>::default().lr.0);
    }
}

#[test]
fn nadam_set_lr_does_not_reset_step_count_or_moments() {
    let mut opt = NAdam::new(NAdamConfig::default()).unwrap();
    let param = t(vec![0.5], &[1]);
    let grad = t(vec![0.3], &[1]);
    opt.step(&[(&param, &grad)]).unwrap();
    assert_eq!(opt.step_count(), 1);

    opt.set_lr(F(0.001)).unwrap();
    assert_eq!(opt.step_count(), 1);
}

#[test]
fn radam_rejects_negative_lr() {
    let cfg = RAdamConfig {
        lr: F(-1.0),
        ..RAdamConfig::default()
    };
    assert!(matches!(
        RAdam::new(cfg),
        Err(AutodiffError::InvalidArgument(_))
    ));
}

#[test]
fn radam_rejects_beta_out_of_range() {
    for cfg in [
        RAdamConfig {
            beta1: F(1.0),
            ..RAdamConfig::default()
        },
        RAdamConfig {
            beta2: F(-0.1),
            ..RAdamConfig::default()
        },
    ] {
        assert!(matches!(
            RAdam::new(cfg),
            Err(AutodiffError::InvalidArgument(_))
        ));
    }
}

#[test]
fn radam_rejects_non_positive_eps() {
    let cfg = RAdamConfig {
        eps: F(0.0),
        ..RAdamConfig::default()
    };
    assert!(matches!(
        RAdam::new(cfg),
        Err(AutodiffError::InvalidArgument(_))
    ));
}

#[test]
fn radam_rejects_nan_hyperparameter() {
    let cfg = RAdamConfig {
        weight_decay: F(f32::NAN),
        ..RAdamConfig::default()
    };
    assert!(matches!(
        RAdam::new(cfg),
        Err(AutodiffError::InvalidArgument(_))
    ));
}

#[test]
fn radam_rejects_param_grad_shape_mismatch() {
    let mut opt = RAdam::new(RAdamConfig::default()).unwrap();
    let param = t(vec![1.0, 2.0], &[2]);
    let grad = t(vec![1.0, 2.0, 3.0], &[3]);
    let result = opt.step(&[(&param, &grad)]);
    assert!(matches!(result, Err(AutodiffError::Shape(_))));
}

#[test]
fn radam_rejects_slot_count_change_after_first_step() {
    let mut opt = RAdam::new(RAdamConfig::default()).unwrap();
    let param = t(vec![1.0], &[1]);
    let grad = t(vec![0.1], &[1]);
    opt.step(&[(&param, &grad)]).unwrap();
    let result = opt.step(&[]);
    assert!(matches!(result, Err(AutodiffError::InvalidArgument(_))));
}

#[test]
fn radam_rejects_slot_shape_change_after_first_step() {
    let mut opt = RAdam::new(RAdamConfig::default()).unwrap();
    let param1 = t(vec![1.0, 2.0], &[2]);
    let grad1 = t(vec![0.1, 0.1], &[2]);
    opt.step(&[(&param1, &grad1)]).unwrap();

    let param2 = t(vec![1.0, 2.0, 3.0], &[3]);
    let grad2 = t(vec![0.1, 0.1, 0.1], &[3]);
    let result = opt.step(&[(&param2, &grad2)]);
    assert!(matches!(result, Err(AutodiffError::Shape(_))));
}

#[test]
fn radam_state_not_mutated_after_failed_step() {
    let mut opt = RAdam::new(RAdamConfig::default()).unwrap();
    let param1 = t(vec![1.0, 2.0], &[2]);
    let grad1 = t(vec![0.1, 0.1], &[2]);
    opt.step(&[(&param1, &grad1)]).unwrap();
    let step_count_before = opt.step_count();

    let param2 = t(vec![1.0, 2.0], &[2]);
    let bad_grad = t(vec![0.1, 0.1, 0.1], &[3]);
    let result = opt.step(&[(&param2, &bad_grad)]);
    assert!(matches!(result, Err(AutodiffError::Shape(_))));
    assert_eq!(
        opt.step_count(),
        step_count_before
    );

    let mut opt_ref = RAdam::new(RAdamConfig::default()).unwrap();
    opt_ref.step(&[(&param1, &grad1)]).unwrap();
    let param3 = t(vec![1.0, 2.0], &[2]);
    let grad3 = t(vec![0.1, 0.1], &[2]);
    let out_after_failed = opt.step(&[(&param3, &grad3)]).unwrap();
    let out_ref = opt_ref.step(&[(&param3, &grad3)]).unwrap();
    assert_eq!(
        dense(&out_after_failed[0]),
        dense(&out_ref[0])
    );
}

#[test]
fn radam_failed_first_step_does_not_poison_state_for_different_shape_retry() {
    let mut opt = RAdam::new(RAdamConfig::default()).unwrap();

    let bad_param = t(vec![1.0, 2.0], &[2]);
    let bad_grad = t(vec![1.0, 2.0, 3.0], &[3]);
    let first = opt.step(&[(&bad_param, &bad_grad)]);
    assert!(matches!(first, Err(AutodiffError::Shape(_))));

    let param_a = t(vec![1.0], &[1]);
    let grad_a = t(vec![0.1], &[1]);
    let param_b = t(vec![1.0, 2.0, 3.0], &[3]);
    let grad_b = t(vec![0.1, 0.1, 0.1], &[3]);
    let second = opt.step(&[(&param_a, &grad_a), (&param_b, &grad_b)]);
    assert!(
        second.is_ok()
    );
    assert_eq!(
        opt.step_count(),
        1
    );
}

#[test]
fn non_rectified_branch_matches_plain_bias_corrected_update() {
    let cfg = RAdamConfig {
        lr: F(0.1),
        beta1: F(0.9),
        beta2: F(0.999),
        eps: F(1e-8),
        weight_decay: F(0.0),
        decoupled_weight_decay: false,
    };
    let mut opt = RAdam::new(cfg).unwrap();
    let p0 = 0.5f32;
    let g0 = 0.3f32;
    let param = t(vec![p0], &[1]);
    let grad = t(vec![g0], &[1]);
    let out = opt.step(&[(&param, &grad)]).unwrap();

    let exp_avg = (1.0 - cfg.beta1.0) * g0;
    let bc1 = 1.0 - cfg.beta1.0;
    let bias_corrected_exp_avg = exp_avg / bc1;
    let expected = p0 - bias_corrected_exp_avg * cfg.lr.0;

    let actual = at(&out[0], &[0]);
    assert!(
        (actual - expected).abs() < 1e-6
    );
}

#[test]
fn radam_decoupled_weight_decay_with_zero_grad_scales_param() {
    let cfg = RAdamConfig {
        lr: F(0.1),
        weight_decay: F(0.5),
        decoupled_weight_decay: true,
        ..RAdamConfig::default()
    };
    let mut opt = RAdam::new(cfg).unwrap();
    let param = t(vec![2.0], &[1]);
    let grad = t(vec![0.0], &[1]);
    let out = opt.step(&[(&param, &grad)]).unwrap();
    let expected = 2.0 * (1.0 - cfg.lr.0 * cfg.weight_decay.0);
    let actual = at(&out[0], &[0]);
    assert!(
        (actual - expected).abs() < 1e-6
    );
}

#[test]
fn radam_set_lr_updates_config_lr_and_keeps_other_fields() {
    let mut opt = RAdam::new(RAdamConfig::default()).unwrap();
    opt.set_lr(F(0.01)).unwrap();
    let cfg = opt.config();
    assert_eq!(cfg.lr.0, 0.01);
    assert_eq!(cfg.beta1.0, RAdamConfig::<F>::default().beta1.0);
    assert_eq!(cfg.beta2.0, RAdamConfig::<F>::default().beta2.0);
}

#[test]
fn radam_set_lr_rejects_negative_and_non_finite() {
    let mut opt = RAdam::new(RAdamConfig::default()).unwrap();
    for bad in [-0.1, f32::NAN, f32::INFINITY, f32::NEG_INFINITY] {
        let err = opt.set_lr(F(bad)).unwrap_err();
        assert!(matches!(err, AutodiffError::InvalidArgument(_)));
        assert_eq!(opt.config().lr.0, RAdamConfig::<F>::default().lr.0);
    }
}

#[test]
fn radam_set_lr_does_not_reset_step_count_or_moments() {
    let mut opt = RAdam::new(RAdamConfig::default()).unwrap();
    let param = t(vec![0.5], &[1]);
    let grad = t(vec![0.3], &[1]);
    opt.step(&[(&param, &grad)]).unwrap();
    assert_eq!(opt.step_count(), 1);

    opt.set_lr(F(0.0001)).unwrap();
    assert_eq!(opt.step_count(), 1);
}

#[test]
fn rmsprop_rejects_negative_lr() {
    let cfg = RmsPropConfig {
        lr: F(-1.0),
        ..RmsPropConfig::default()
    };
    assert!(matches!(
        RmsProp::new(cfg),
        Err(AutodiffError::InvalidArgument(_))
    ));
}

#[test]
fn rejects_alpha_out_of_range() {
    let cfg = RmsPropConfig {
        alpha: F(1.0),
        ..RmsPropConfig::default()
    };
    assert!(matches!(
        RmsProp::new(cfg),
        Err(AutodiffError::InvalidArgument(_))
    ));
    let cfg = RmsPropConfig {
        alpha: F(-0.1),
        ..RmsPropConfig::default()
    };
    assert!(matches!(
        RmsProp::new(cfg),
        Err(AutodiffError::InvalidArgument(_))
    ));
}

#[test]
fn rmsprop_rejects_non_positive_eps() {
    let cfg = RmsPropConfig {
        eps: F(0.0),
        ..RmsPropConfig::default()
    };
    assert!(matches!(
        RmsProp::new(cfg),
        Err(AutodiffError::InvalidArgument(_))
    ));
}

#[test]
fn rejects_negative_momentum() {
    let cfg = RmsPropConfig {
        momentum: F(-0.1),
        ..RmsPropConfig::default()
    };
    assert!(matches!(
        RmsProp::new(cfg),
        Err(AutodiffError::InvalidArgument(_))
    ));
}

#[test]
fn rmsprop_rejects_nan_hyperparameter() {
    let cfg = RmsPropConfig {
        weight_decay: F(f32::NAN),
        ..RmsPropConfig::default()
    };
    assert!(matches!(
        RmsProp::new(cfg),
        Err(AutodiffError::InvalidArgument(_))
    ));
}

#[test]
fn rmsprop_rejects_param_grad_shape_mismatch() {
    let mut opt = RmsProp::new(RmsPropConfig::default()).unwrap();
    let param = t(vec![1.0, 2.0], &[2]);
    let grad = t(vec![1.0, 2.0, 3.0], &[3]);
    let result = opt.step(&[(&param, &grad)]);
    assert!(matches!(result, Err(AutodiffError::Shape(_))));
}

#[test]
fn rmsprop_rejects_slot_count_change_after_first_step() {
    let mut opt = RmsProp::new(RmsPropConfig::default()).unwrap();
    let param = t(vec![1.0], &[1]);
    let grad = t(vec![0.1], &[1]);
    opt.step(&[(&param, &grad)]).unwrap();
    let result = opt.step(&[]);
    assert!(matches!(result, Err(AutodiffError::InvalidArgument(_))));
}

#[test]
fn rmsprop_rejects_slot_shape_change_after_first_step() {
    let mut opt = RmsProp::new(RmsPropConfig::default()).unwrap();
    let param1 = t(vec![1.0, 2.0], &[2]);
    let grad1 = t(vec![0.1, 0.1], &[2]);
    opt.step(&[(&param1, &grad1)]).unwrap();

    let param2 = t(vec![1.0, 2.0, 3.0], &[3]);
    let grad2 = t(vec![0.1, 0.1, 0.1], &[3]);
    let result = opt.step(&[(&param2, &grad2)]);
    assert!(matches!(result, Err(AutodiffError::Shape(_))));
}

#[test]
fn rmsprop_state_not_mutated_after_failed_step() {
    let cfg = RmsPropConfig {
        momentum: F(0.9),
        centered: true,
        ..RmsPropConfig::default()
    };
    let mut opt = RmsProp::new(cfg).unwrap();
    let param1 = t(vec![1.0, 2.0], &[2]);
    let grad1 = t(vec![0.1, 0.1], &[2]);
    opt.step(&[(&param1, &grad1)]).unwrap();
    let step_count_before = opt.step_count();

    let param2 = t(vec![1.0, 2.0], &[2]);
    let bad_grad = t(vec![0.1, 0.1, 0.1], &[3]);
    let result = opt.step(&[(&param2, &bad_grad)]);
    assert!(matches!(result, Err(AutodiffError::Shape(_))));
    assert_eq!(
        opt.step_count(),
        step_count_before
    );

    let mut opt_ref = RmsProp::new(cfg).unwrap();
    opt_ref.step(&[(&param1, &grad1)]).unwrap();
    let param3 = t(vec![1.0, 2.0], &[2]);
    let grad3 = t(vec![0.1, 0.1], &[2]);
    let out_after_failed = opt.step(&[(&param3, &grad3)]).unwrap();
    let out_ref = opt_ref.step(&[(&param3, &grad3)]).unwrap();
    assert_eq!(
        dense(&out_after_failed[0]),
        dense(&out_ref[0])
    );
}

#[test]
fn weight_decay_zero_skips_decay_term() {
    let cfg = RmsPropConfig {
        weight_decay: F(0.0),
        ..RmsPropConfig::default()
    };
    let mut opt = RmsProp::new(cfg).unwrap();
    let param = t(vec![1.0], &[1]);
    let grad = t(vec![0.0], &[1]);
    let out = opt.step(&[(&param, &grad)]).unwrap();
    assert_eq!(at(&out[0], &[0]), 1.0);
}

#[test]
fn centered_with_constant_grad_does_not_produce_nan() {
    let cfg = RmsPropConfig {
        centered: true,
        ..RmsPropConfig::default()
    };
    let mut opt = RmsProp::new(cfg).unwrap();
    let mut param = t(vec![1.0], &[1]);
    let grad = t(vec![0.5], &[1]);
    for _ in 0..10 {
        let out = opt.step(&[(&param, &grad)]).unwrap();
        let v = at(&out[0], &[0]);
        assert!(v.is_finite());
        param = out.into_iter().next().unwrap();
    }
}

#[test]
fn first_step_momentum_matches_closed_form() {
    let cfg = RmsPropConfig {
        lr: F(0.05),
        alpha: F(0.9),
        eps: F(1e-6),
        weight_decay: F(0.0),
        momentum: F(0.5),
        centered: false,
    };
    let mut opt = RmsProp::new(cfg).unwrap();
    let p0 = 0.5f32;
    let g0 = 0.3f32;
    let param = t(vec![p0], &[1]);
    let grad = t(vec![g0], &[1]);
    let out = opt.step(&[(&param, &grad)]).unwrap();

    let square_avg = (1.0 - cfg.alpha.0) * g0 * g0;
    let avg = square_avg.sqrt() + cfg.eps.0;
    let buf = g0 / avg;
    let expected = p0 - cfg.lr.0 * buf;

    let actual = at(&out[0], &[0]);
    assert!(
        (actual - expected).abs() < 1e-6
    );
}

#[test]
fn rmsprop_first_step_matches_closed_form() {
    let cfg = RmsPropConfig {
        lr: F(0.05),
        alpha: F(0.9),
        eps: F(1e-6),
        weight_decay: F(0.0),
        momentum: F(0.0),
        centered: false,
    };
    let mut opt = RmsProp::new(cfg).unwrap();
    let p0 = 0.5f32;
    let g0 = 0.3f32;
    let param = t(vec![p0], &[1]);
    let grad = t(vec![g0], &[1]);
    let out = opt.step(&[(&param, &grad)]).unwrap();

    let square_avg = (1.0 - cfg.alpha.0) * g0 * g0;
    let avg = square_avg.sqrt() + cfg.eps.0;
    let expected = p0 - (cfg.lr.0 * g0) / avg;

    let actual = at(&out[0], &[0]);
    assert!(
        (actual - expected).abs() < 1e-6
    );
}

#[test]
fn rmsprop_failed_first_step_does_not_poison_state_for_different_shape_retry() {
    let mut opt = RmsProp::new(RmsPropConfig::default()).unwrap();

    let bad_param = t(vec![1.0, 2.0], &[2]);
    let bad_grad = t(vec![1.0, 2.0, 3.0], &[3]);
    let first = opt.step(&[(&bad_param, &bad_grad)]);
    assert!(matches!(first, Err(AutodiffError::Shape(_))));

    let param_a = t(vec![1.0], &[1]);
    let grad_a = t(vec![0.1], &[1]);
    let param_b = t(vec![1.0, 2.0, 3.0], &[3]);
    let grad_b = t(vec![0.1, 0.1, 0.1], &[3]);
    let second = opt.step(&[(&param_a, &grad_a), (&param_b, &grad_b)]);
    assert!(
        second.is_ok()
    );
    assert_eq!(
        opt.step_count(),
        1
    );
}

#[test]
fn centered_lerp_uses_stable_branch_near_weight_one() {
    let cfg = RmsPropConfig {
        lr: F(0.0),
        alpha: F(0.0),
        eps: F(1e-8),
        weight_decay: F(0.0),
        momentum: F(0.0),
        centered: true,
    };
    let mut opt = RmsProp::new(cfg).unwrap();
    let mut param = t(vec![0.0], &[1]);

    let big_grad = t(vec![1.0e8], &[1]);
    for _ in 0..1 {
        let out = opt.step(&[(&param, &big_grad)]).unwrap();
        param = out.into_iter().next().unwrap();
    }

    let small_grad = t(vec![1.0], &[1]);
    opt.step(&[(&param, &small_grad)]).unwrap();

    let cfg2 = RmsPropConfig { lr: F(0.01), ..cfg };
    let mut opt2 = RmsProp::new(cfg2).unwrap();
    let mut p2 = t(vec![0.0], &[1]);
    opt2.step(&[(&p2, &big_grad)]).unwrap();
    for _ in 0..5 {
        let out = opt2
            .step(&[(&p2, &small_grad)])
            .unwrap();
        let v = at(&out[0], &[0]);
        assert!(v.is_finite());
        p2 = out.into_iter().next().unwrap();
    }
}

fn reason<T>(result: Result<T, AutodiffError>) -> String {
    match result {
        Err(AutodiffError::InvalidArgument(text)) => text,
        _ => String::new(),
    }
}

#[test]
fn refused_settings_are_told() {
    let adagrad = AdagradConfig::<F>::default();
    assert_eq!(
        reason(Adagrad::new(AdagradConfig { lr: F(-0.5), ..adagrad })),
        "Adagrad::new: lr must be finite and >= 0.0, got -0.5",
    );
    assert_eq!(
        reason(Adagrad::new(AdagradConfig { initial_accumulator_value: F(f32::NAN), ..adagrad })),
        "Adagrad::new: initial_accumulator_value must be finite and >= 0.0, got NaN",
    );
    let adam = AdamConfig::<F>::default();
    assert_eq!(
        reason(Adam::new(AdamConfig { beta1: F(1.0), ..adam })),
        "Adam::new: beta1 must be in [0.0, 1.0), got 1",
    );
    assert_eq!(
        reason(Adam::new(AdamConfig { eps: F(0.0), ..adam })),
        "Adam::new: eps must be finite and > 0.0, got 0",
    );
    let mut optimizer = AdamW::new(AdamWConfig::<F>::default()).unwrap();
    assert_eq!(
        reason(optimizer.set_lr(F(f32::INFINITY))),
        "AdamW::set_lr: lr must be finite and >= 0.0, got inf",
    );
    assert_eq!(
        reason(NAdam::new(NAdamConfig { momentum_decay: F(-1.0), ..NAdamConfig::<F>::default() })),
        "NAdam::new: momentum_decay must be finite and >= 0.0, got -1",
    );
}

#[test]
fn changed_numbers_of_slots_are_told() {
    let p = t(vec![1.0], &[1]);
    let g = t(vec![0.5], &[1]);
    let mut adamax = Adamax::new(AdamaxConfig::<F>::default()).unwrap();
    adamax.step(&[(&p, &g)]).unwrap();
    assert_eq!(
        reason(adamax.step(&[(&p, &g), (&p, &g)])),
        "Adamax::step: slot count changed across calls (expected 1, got 2); Adamax state (exp_avg/exp_inf) is keyed by call-order slot index and cannot be resized after the first step()",
    );
    let mut lamb = Lamb::new(LambConfig::<F>::default()).unwrap();
    lamb.step(&[(&p, &g), (&p, &g)]).unwrap();
    assert_eq!(
        reason(lamb.step(&[(&p, &g)])),
        "Lamb::step: slot count changed across calls (expected 2, got 1); Lamb state (m/v) is keyed by call-order slot index and cannot be resized after the first step()",
    );
}

#[test]
fn layer_at_fault_is_told() {
    let fine = t(vec![1.0], &[1]);
    let mut lamb = Lamb::new(LambConfig::<F>::default()).unwrap();
    let steep = t(vec![1.0, 1e30], &[2]);
    let pair = t(vec![1.0, 2.0], &[2]);
    let moment = (1.0_f32 - 0.9) * 1e30;
    assert_eq!(
        reason(lamb.step(&[(&fine, &fine), (&pair, &steep)])),
        format!(
            "Lamb::step: slot 1: non-finite second moment estimate (m={moment}, v=inf) at element 1; refusing to commit state that would become unrecoverable (see module doc \"非有限 norm の扱い\")"
        ),
    );
    let far = t(vec![f32::INFINITY], &[1]);
    assert_eq!(
        reason(lamb.step(&[(&far, &t(vec![0.0], &[1]))])),
        "Lamb::step: slot 0: non-finite parameter or update norm (norm_x=inf, norm_t=0); trust ratio cannot be computed",
    );
    let config = LambConfig { lr: F(1.0), ..LambConfig::<F>::default() };
    let mut quick = Lamb::new(config).unwrap();
    let large = t(vec![f32::MAX], &[1]);
    let tiny = t(vec![1e-20], &[1]);
    let text = reason(quick.step(&[(&large, &tiny)]));
    assert!(text.starts_with("Lamb::step: slot 0: trust ratio is non-finite (norm_x=340282346638528860000000000000000000000, norm_t="));
    assert_eq!(quick.step_count(), 0);
}

#[test]
fn layer_steps_alone_as_it_does_among_others() {
    let a = t(vec![1.0, -2.0], &[2]);
    let b = t(vec![3.0], &[1]);
    let ga = t(vec![0.5, 0.25], &[2]);
    let gb = t(vec![-1.0], &[1]);
    let mut common = Lamb::new(LambConfig::<F>::default()).unwrap();
    let mut alone = Lamb::new(LambConfig::<F>::default()).unwrap();
    let (mut x, mut y, mut z) = (a, b.duplicate(), b);
    for _ in 0..4 {
        let mut moved = common.step(&[(&x, &ga), (&y, &gb)]).unwrap();
        y = moved.remove(1);
        x = moved.remove(0);
        z = alone.step(&[(&z, &gb)]).unwrap().remove(0);
        assert_eq!(dense(&y), dense(&z));
    }
    assert_eq!(common.step_count(), alone.step_count());
}
