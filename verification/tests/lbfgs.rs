use autodiff_nn::error::AutodiffError;
use autodiff_nn::number::{Double, Real, Single};
use autodiff_nn::optim::flat::{dot_f64, flatten_tensors, unflatten_tensors};
use autodiff_nn::optim::lbfgs::{Lbfgs, LbfgsConfig, LbfgsLineSearch};
use autodiff_nn::optim::line_search::{cubic_interpolate, directional_evaluate, strong_wolfe};
use autodiff_nn::optim::trace::{Fallible, Infallible};
use autodiff_nn::tensor::Tensor;

#[derive(Clone, Copy, PartialEq, Debug)]
struct F(f32);
#[derive(Clone, Copy, PartialEq, Debug)]
struct D(f64);

impl Real for F {
    fn literal(mantissa: i64, exponent: i32) -> F {
        F(format!("{}e{}", mantissa, exponent).parse().unwrap())
    }
    fn one_equals_one() {}
    fn extremes(self, _other: F) {}
    fn order(self, _other: F, _third: F) {}
    fn signs(self, _other: F) {}
    fn midpoint(self, _low: F, _high: F) {}
    fn unit_interval(self, _other: F) {}
    fn decimals(_low: i64, _high: i64, _places: u32) {}
    fn neutral(self, _other: F) {}
    fn fused_operands(self, _factor: F, _addend: F) {}
    fn infinity() -> F { F(f32::INFINITY) }
    fn nan() -> F { F(f32::NAN) }
    fn add(self, o: F) -> F { F(self.0 + o.0) }
    fn sub(self, o: F) -> F { F(self.0 - o.0) }
    fn mul(self, o: F) -> F { F(self.0 * o.0) }
    fn div(self, o: F) -> F { F(self.0 / o.0) }
    fn neg(self) -> F { F(-self.0) }
    fn mul_add(self, a: F, b: F) -> F { F(self.0.mul_add(a.0, b.0)) }
    fn sqrt(self) -> F { F(self.0.sqrt()) }
    fn abs(self) -> F { F(self.0.abs()) }
    fn max(self, o: F) -> F { F(self.0.max(o.0)) }
    fn min(self, o: F) -> F { F(self.0.min(o.0)) }
    fn powi(self, n: i32) -> F { F(self.0.powi(n)) }
    fn is_finite(self) -> bool { self.0.is_finite() }
    fn is_nan(self) -> bool { self.0.is_nan() }
    fn lt(self, o: F) -> bool { self.0 < o.0 }
    fn le(self, o: F) -> bool { self.0 <= o.0 }
    fn eq(self, o: F) -> bool { self.0 == o.0 }
    fn show(self) -> String { format!("{}", self.0) }
}
impl Real for D {
    fn literal(mantissa: i64, exponent: i32) -> D {
        D(format!("{}e{}", mantissa, exponent).parse().unwrap())
    }
    fn one_equals_one() {}
    fn extremes(self, _other: D) {}
    fn order(self, _other: D, _third: D) {}
    fn signs(self, _other: D) {}
    fn midpoint(self, _low: D, _high: D) {}
    fn unit_interval(self, _other: D) {}
    fn decimals(_low: i64, _high: i64, _places: u32) {}
    fn neutral(self, _other: D) {}
    fn fused_operands(self, _factor: D, _addend: D) {}
    fn infinity() -> D { D(f64::INFINITY) }
    fn nan() -> D { D(f64::NAN) }
    fn add(self, o: D) -> D { D(self.0 + o.0) }
    fn sub(self, o: D) -> D { D(self.0 - o.0) }
    fn mul(self, o: D) -> D { D(self.0 * o.0) }
    fn div(self, o: D) -> D { D(self.0 / o.0) }
    fn neg(self) -> D { D(-self.0) }
    fn mul_add(self, a: D, b: D) -> D { D(self.0.mul_add(a.0, b.0)) }
    fn sqrt(self) -> D { D(self.0.sqrt()) }
    fn abs(self) -> D { D(self.0.abs()) }
    fn max(self, o: D) -> D { D(self.0.max(o.0)) }
    fn min(self, o: D) -> D { D(self.0.min(o.0)) }
    fn powi(self, n: i32) -> D { D(self.0.powi(n)) }
    fn is_finite(self) -> bool { self.0.is_finite() }
    fn is_nan(self) -> bool { self.0.is_nan() }
    fn lt(self, o: D) -> bool { self.0 < o.0 }
    fn le(self, o: D) -> bool { self.0 <= o.0 }
    fn eq(self, o: D) -> bool { self.0 == o.0 }
    fn show(self) -> String { format!("{}", self.0) }
}
impl Double for D {
    fn of_bits_inverts_bits(self) {}
    fn integers(_n: u128) {}
    fn powers(self, _exponent: D) {}
    fn from_integer(n: u128) -> D { D(n as f64) }
    fn powf(self, e: D) -> D { D(self.0.powf(e.0)) }
    fn cos(self) -> D { D(self.0.cos()) }
    fn sin(self) -> D { D(self.0.sin()) }
    fn to_bits(self) -> u64 { self.0.to_bits() }
    fn from_bits(bits: u64) -> D { D(f64::from_bits(bits)) }
}
impl Single for F {
    type Wide = D;
    fn words_are_exact(_word: u16) {}
    fn precisions(self, _wide: D) {}
    fn binary_scaling(self, _scale: F) {}
    fn widen(self) -> D { D(self.0 as f64) }
    fn round(wide: D) -> F { F(wide.0 as f32) }
    fn from_word(word: u16) -> F { F(word as f32) }
    fn to_word(self) -> u16 { self.0 as u16 }
    fn is_integral(self) -> bool { self.0.fract() == 0.0 }
    fn is_subnormal(self) -> bool { self.0.is_subnormal() }
}

fn t(data: Vec<f32>, shape: &[usize]) -> Tensor<F> {
    Tensor::new(data.into_iter().map(F).collect(), shape).unwrap()
}

fn at(tensor: &Tensor<F>, index: &[usize]) -> f32 {
    tensor.get(index).unwrap().0
}

fn dense(tensor: &Tensor<F>) -> Vec<f32> {
    tensor.as_slice().iter().map(|x| x.0).collect()
}

#[test]
fn lbfgs_rejects_negative_lr() {
    let cfg = LbfgsConfig {
        lr: F(-1.0),
        ..LbfgsConfig::<F>::default()
    };
    assert!(matches!(
        Lbfgs::new(cfg),
        Err(AutodiffError::InvalidArgument(_))
    ));
}

#[test]
fn rejects_nan_lr() {
    let cfg = LbfgsConfig {
        lr: F(f32::NAN),
        ..LbfgsConfig::<F>::default()
    };
    assert!(matches!(
        Lbfgs::new(cfg),
        Err(AutodiffError::InvalidArgument(_))
    ));
}

#[test]
fn rejects_zero_max_iter() {
    let cfg = LbfgsConfig {
        max_iter: 0,
        ..LbfgsConfig::<F>::default()
    };
    assert!(matches!(
        Lbfgs::new(cfg),
        Err(AutodiffError::InvalidArgument(_))
    ));
}

#[test]
fn rejects_zero_history_size() {
    let cfg = LbfgsConfig {
        history_size: 0,
        ..LbfgsConfig::<F>::default()
    };
    assert!(matches!(
        Lbfgs::new(cfg),
        Err(AutodiffError::InvalidArgument(_))
    ));
}

#[test]
fn rejects_zero_line_search_steps() {
    let cfg = LbfgsConfig {
        line_search_steps: 0,
        ..LbfgsConfig::<F>::default()
    };
    assert!(matches!(
        Lbfgs::new(cfg),
        Err(AutodiffError::InvalidArgument(_))
    ));
}

#[test]
fn rejects_negative_tolerance() {
    let cfg = LbfgsConfig {
        tolerance_grad: F(-1.0),
        ..LbfgsConfig::<F>::default()
    };
    assert!(matches!(
        Lbfgs::new(cfg),
        Err(AutodiffError::InvalidArgument(_))
    ));
    let cfg = LbfgsConfig {
        tolerance_change: F(-1.0),
        ..LbfgsConfig::<F>::default()
    };
    assert!(matches!(
        Lbfgs::new(cfg),
        Err(AutodiffError::InvalidArgument(_))
    ));
}

#[test]
fn rejects_empty_params_without_calling_closure() {
    let mut opt = Lbfgs::new(LbfgsConfig::<F>::default()).unwrap();
    let mut called = false;
    let result = opt.step_closure(&[], |_p| {
        called = true;
        (F(0.0), vec![])
    });
    assert!(matches!(result, Err(AutodiffError::InvalidArgument(_))));
    assert!(!called);
}

#[test]
fn lbfgs_rejects_slot_count_change_after_first_step() {
    let mut opt = Lbfgs::new(LbfgsConfig::<F>::default()).unwrap();
    let param = t(vec![1.0], &[1]);
    opt.step_closure(std::slice::from_ref(&param), |p| {
        let g = t(vec![2.0 * at(&p[0], &[0])], &[1]);
        (F(at(&p[0], &[0]).powi(2)), vec![g])
    })
    .unwrap();

    let result = opt.step_closure(&[], |_p| (F(0.0), vec![]));
    assert!(matches!(result, Err(AutodiffError::InvalidArgument(_))));
}

#[test]
fn lbfgs_rejects_slot_shape_change_after_first_step() {
    let mut opt = Lbfgs::new(LbfgsConfig::<F>::default()).unwrap();
    let param = t(vec![1.0], &[1]);
    opt.step_closure(&[param], |p| {
        let v = at(&p[0], &[0]);
        (F(v * v), vec![t(vec![2.0 * v], &[1])])
    })
    .unwrap();

    let param2 = t(vec![1.0, 2.0], &[2]);
    let result = opt.step_closure(&[param2], |p| {
        let v0 = at(&p[0], &[0]);
        let v1 = at(&p[0], &[1]);
        (F(v0 * v0 + v1 * v1), vec![t(vec![2.0 * v0, 2.0 * v1], &[2])])
    });
    assert!(matches!(result, Err(AutodiffError::Shape(_))));
}

#[test]
fn rejects_closure_gradient_count_mismatch() {
    let mut opt = Lbfgs::new(LbfgsConfig::<F>::default()).unwrap();
    let param = t(vec![1.0], &[1]);
    let result = opt.step_closure(&[param], |_p| (F(1.0), vec![]));
    assert!(matches!(result, Err(AutodiffError::InvalidArgument(_))));
}

#[test]
fn rejects_closure_gradient_shape_mismatch() {
    let mut opt = Lbfgs::new(LbfgsConfig::<F>::default()).unwrap();
    let param = t(vec![1.0], &[1]);
    let result = opt.step_closure(&[param], |_p| (F(1.0), vec![t(vec![1.0, 2.0], &[2])]));
    assert!(matches!(result, Err(AutodiffError::Shape(_))));
}

#[test]
fn rejects_non_finite_loss() {
    let mut opt = Lbfgs::new(LbfgsConfig::<F>::default()).unwrap();
    let param = t(vec![1.0], &[1]);
    let result = opt.step_closure(&[param], |_p| (F(f32::NAN), vec![t(vec![1.0], &[1])]));
    assert!(matches!(result, Err(AutodiffError::InvalidArgument(_))));
}

#[test]
fn rejects_non_finite_gradient() {
    let mut opt = Lbfgs::new(LbfgsConfig::<F>::default()).unwrap();
    let param = t(vec![1.0], &[1]);
    let result = opt.step_closure(&[param], |_p| (F(1.0), vec![t(vec![f32::INFINITY], &[1])]));
    assert!(matches!(result, Err(AutodiffError::InvalidArgument(_))));
}

#[test]
fn state_not_mutated_after_failed_closure() {
    fn quadratic_closure(p: &[Tensor<F>]) -> Result<(F, Vec<Tensor<F>>), AutodiffError> {
        let v = at(&p[0], &[0]);
        Ok((F(v * v), vec![t(vec![2.0 * v], &[1])]))
    }

    let cfg = LbfgsConfig {
        line_search: LbfgsLineSearch::StrongWolfe,
        ..LbfgsConfig::<F>::default()
    };
    let mut opt = Lbfgs::new(cfg).unwrap();
    let param0 = t(vec![3.0], &[1]);
    let after_step1 = opt.try_step_closure(&[param0], quadratic_closure).unwrap();
    let n_iter_before = opt.n_iter();
    let func_evals_before = opt.func_evals();

    let failing_result = opt.try_step_closure(&after_step1, |_p| {
        Err(AutodiffError::Backward("boom".into()))
    });
    assert!(matches!(failing_result, Err(AutodiffError::Backward(_))));
    assert_eq!(opt.n_iter(), n_iter_before);
    assert_eq!(opt.func_evals(), func_evals_before);

    let mut opt_ref = Lbfgs::new(LbfgsConfig {
        line_search: LbfgsLineSearch::StrongWolfe,
        ..LbfgsConfig::<F>::default()
    })
    .unwrap();
    let param0_ref = t(vec![3.0], &[1]);
    let after_ref_step1 = opt_ref
        .try_step_closure(&[param0_ref], quadratic_closure)
        .unwrap();
    let after_ref_step2 = opt_ref
        .try_step_closure(&after_ref_step1, quadratic_closure)
        .unwrap();

    let after_step2 = opt
        .try_step_closure(&after_step1, quadratic_closure)
        .unwrap();

    assert_eq!(
        at(&after_step2[0], &[0]),
        at(&after_ref_step2[0], &[0])
    );
}

#[test]
fn set_lr_does_not_reset_state() {
    fn quadratic_closure(p: &[Tensor<F>]) -> (F, Vec<Tensor<F>>) {
        let v = at(&p[0], &[0]);
        (F(v * v), vec![t(vec![2.0 * v], &[1])])
    }

    let mut opt = Lbfgs::new(LbfgsConfig::<F>::default()).unwrap();
    let param = t(vec![3.0], &[1]);
    opt.step_closure(&[param], quadratic_closure).unwrap();
    let n_iter_before = opt.n_iter();
    opt.set_lr(F(0.5)).unwrap();
    assert_eq!(opt.n_iter(), n_iter_before);
    assert_eq!(opt.config().lr.0, 0.5);
}

#[test]
fn set_lr_rejects_negative() {
    let mut opt = Lbfgs::new(LbfgsConfig::<F>::default()).unwrap();
    assert!(matches!(
        opt.set_lr(F(-1.0)),
        Err(AutodiffError::InvalidArgument(_))
    ));
}

#[test]
fn tolerance_grad_triggers_immediate_return() {
    let cfg = LbfgsConfig {
        tolerance_grad: F(100.0),
        ..LbfgsConfig::<F>::default()
    };
    let mut opt = Lbfgs::new(cfg).unwrap();
    let param = t(vec![3.0], &[1]);
    let out = opt
        .step_closure(std::slice::from_ref(&param), |p| {
            let v = at(&p[0], &[0]);
            (F(v * v), vec![t(vec![2.0 * v], &[1])])
        })
        .unwrap();
    assert_eq!(at(&out[0], &[0]), at(&param, &[0]));
    assert_eq!(opt.func_evals(), 1);
    assert_eq!(opt.n_iter(), 0);
    assert_eq!(opt.last_loss(), Some(F(9.0)));
}

#[test]
fn line_search_steps_cap_limits_trials() {
    fn wavy_closure(p: &[Tensor<F>]) -> (F, Vec<Tensor<F>>) {
        let x = at(&p[0], &[0]);
        let loss = x.sin() + 0.1 * x * x;
        let grad = x.cos() + 0.2 * x;
        (F(loss), vec![t(vec![grad], &[1])])
    }

    let mut call_count = std::cell::Cell::new(0usize);
    let cfg = LbfgsConfig {
        line_search: LbfgsLineSearch::StrongWolfe,
        line_search_steps: 1,
        max_iter: 1,
        max_eval: Some(1000),
        ..LbfgsConfig::<F>::default()
    };
    let mut opt = Lbfgs::new(cfg).unwrap();
    let param = t(vec![5.0], &[1]);
    opt.step_closure(&[param], |p| {
        *call_count.get_mut() += 1;
        wavy_closure(p)
    })
    .unwrap();
    assert!(
        *call_count.get_mut() <= 2
    );
}

#[test]
fn rejects_max_iter_overflow_when_max_eval_unset() {
    let cfg = LbfgsConfig {
        max_iter: usize::MAX,
        max_eval: None,
        ..LbfgsConfig::<F>::default()
    };
    assert!(matches!(
        Lbfgs::new(cfg),
        Err(AutodiffError::InvalidArgument(_))
    ));
}

#[test]
fn accepts_max_iter_overflow_prone_value_when_max_eval_set() {
    let cfg = LbfgsConfig {
        max_iter: usize::MAX,
        max_eval: Some(5),
        ..LbfgsConfig::<F>::default()
    };
    assert!(Lbfgs::new(cfg).is_ok());
}

#[test]
fn strong_wolfe_respects_max_eval_one() {
    let cfg = LbfgsConfig {
        line_search: LbfgsLineSearch::StrongWolfe,
        max_eval: Some(1),
        ..LbfgsConfig::<F>::default()
    };
    let mut opt = Lbfgs::new(cfg).unwrap();
    let param = t(vec![3.0], &[1]);
    let call_count = std::cell::Cell::new(0usize);
    let out = opt
        .step_closure(&[param], |p| {
            call_count.set(call_count.get() + 1);
            let v = at(&p[0], &[0]);
            (F(v * v), vec![t(vec![2.0 * v], &[1])])
        })
        .unwrap();
    assert_eq!(call_count.get(), 1);
    assert_eq!(opt.func_evals(), 1);
    assert_eq!(
        at(&out[0], &[0]),
        3.0
    );
}

#[test]
fn rejects_non_finite_x_after_fixed_step_update() {
    let cfg = LbfgsConfig {
        line_search: LbfgsLineSearch::FixedStep,
        lr: F(3e38),
        max_iter: 1,
        ..LbfgsConfig::<F>::default()
    };
    let mut opt = Lbfgs::new(cfg).unwrap();
    let param = t(vec![-3e38], &[1]);
    let result = opt.step_closure(&[param], |_p| (F(0.0), vec![t(vec![1.0], &[1])]));
    assert!(matches!(result, Err(AutodiffError::InvalidArgument(_))));
    assert_eq!(opt.n_iter(), 0);
    assert_eq!(
        opt.func_evals(),
        0
    );
}

#[test]
fn directional_evaluate_rejects_non_finite_trial_without_calling_closure() {
    let mut called = false;
    let x = [F(f32::MAX)];
    let d = [F(f32::MAX)];
    let slot_shapes = vec![vec![1]];
    let result = directional_evaluate(
        &mut Fallible::new(|_p: &[Tensor<F>]| -> Result<(F, Vec<Tensor<F>>), AutodiffError> {
            called = true;
            Ok((F(0.0), vec![t(vec![1.0], &[1])]))
        }),
        &slot_shapes,
        &x,
        F(2.0),
        &d,
    );
    assert!(matches!(result, Err(AutodiffError::InvalidArgument(_))));
    assert!(!called);
}

#[test]
fn rejects_non_finite_params_without_calling_closure() {
    let mut opt = Lbfgs::new(LbfgsConfig::<F>::default()).unwrap();
    let mut called = false;
    let param = t(vec![f32::NAN], &[1]);
    let result = opt.step_closure(&[param], |_p| {
        called = true;
        (F(0.0), vec![t(vec![1.0], &[1])])
    });
    assert!(matches!(result, Err(AutodiffError::InvalidArgument(_))));
    assert!(!called);
    assert_eq!(opt.n_iter(), 0);
    assert_eq!(opt.func_evals(), 0);
}

#[test]
fn rejects_gtd_overflow_from_dot_f64_rounding() {
    let mut opt = Lbfgs::new(LbfgsConfig::<F>::default()).unwrap();
    let param = t(vec![1.0], &[1]);
    let result = opt.step_closure(&[param], |_p| (F(0.0), vec![t(vec![3e19], &[1])]));
    assert!(matches!(result, Err(AutodiffError::InvalidArgument(_))));
    assert_eq!(opt.n_iter(), 0);
    assert_eq!(
        opt.func_evals(),
        0
    );
}

#[test]
fn dot_f64_rejects_f32_rounding_overflow() {
    let a = [F(3e19)];
    let b = [F(3e19)];
    let result = dot_f64("test: a b", &a, &b);
    assert!(matches!(result, Err(AutodiffError::InvalidArgument(_))));
}

#[test]
fn dot_f64_accepts_finite_result() {
    let a = [F(1.0), F(2.0), F(3.0)];
    let b = [F(4.0), F(5.0), F(6.0)];
    assert_eq!(dot_f64("test: a b", &a, &b).unwrap(), F(32.0));
}

#[test]
fn rejects_sum_abs_overflow_for_initial_step_size() {
    let mut opt = Lbfgs::new(LbfgsConfig::<F>::default()).unwrap();
    let param = t(vec![1.0, 1.0], &[2]);
    let result = opt.step_closure(&[param], |_p| (F(0.0), vec![t(vec![2e38, 2e38], &[2])]));
    assert!(matches!(result, Err(AutodiffError::InvalidArgument(_))));
    assert_eq!(opt.n_iter(), 0);
    assert_eq!(opt.func_evals(), 0);
}

fn bowl(p: &[Tensor<F>]) -> (F, Vec<Tensor<F>>) {
    let x = dense(&p[0]);
    let loss = (x[0] - 1.0).powi(2) + 4.0 * (x[1] + 2.0).powi(2);
    (F(loss), vec![t(vec![2.0 * (x[0] - 1.0), 8.0 * (x[1] + 2.0)], &[2])])
}

fn valley(p: &[Tensor<F>]) -> (F, Vec<Tensor<F>>) {
    let x = at(&p[0], &[0]);
    let y = at(&p[1], &[0]);
    let loss = (1.0 - x).powi(2) + 100.0 * (y - x * x).powi(2);
    let dx = -2.0 * (1.0 - x) - 400.0 * x * (y - x * x);
    let dy = 200.0 * (y - x * x);
    (F(loss), vec![t(vec![dx], &[1]), t(vec![dy], &[1])])
}

#[test]
fn fixed_steps_reach_the_minimum_of_a_bowl() {
    let mut opt = Lbfgs::new(LbfgsConfig::<F>::default()).unwrap();
    let out = opt.step_closure(&[t(vec![5.0, 5.0], &[2])], bowl).unwrap();
    assert!((at(&out[0], &[0]) - 1.0).abs() < 1e-3);
    assert!((at(&out[0], &[1]) + 2.0).abs() < 1e-3);
    assert!(opt.n_iter() > 1);
    assert!(opt.n_iter() <= opt.func_evals());
}

#[test]
fn line_search_reaches_the_end_of_a_curved_valley() {
    let cfg = LbfgsConfig {
        max_iter: 100,
        line_search: LbfgsLineSearch::StrongWolfe,
        ..LbfgsConfig::<F>::default()
    };
    let mut opt = Lbfgs::new(cfg).unwrap();
    let mut params = vec![t(vec![-1.2], &[1]), t(vec![1.0], &[1])];
    for _ in 0..3 {
        params = opt.step_closure(&params, valley).unwrap();
    }
    assert!((at(&params[0], &[0]) - 1.0).abs() < 1e-2);
    assert!((at(&params[1], &[0]) - 1.0).abs() < 1e-2);
    assert_eq!(params[0].shape(), &[1]);
}

#[test]
fn first_fixed_step_follows_the_scaled_gradient() {
    let cfg = LbfgsConfig { max_iter: 1, lr: F(0.5), ..LbfgsConfig::<F>::default() };
    let mut opt = Lbfgs::new(cfg).unwrap();
    let out = opt.step_closure(&[t(vec![3.0, -2.0], &[2])], bowl).unwrap();
    // The gradient is (4, 0), so the distance is 0.5 * min(1, 1 / 4).
    assert_eq!(dense(&out[0]), vec![2.5, -2.0]);
    assert_eq!(opt.n_iter(), 1);
    assert_eq!(opt.func_evals(), 1);
    assert_eq!(opt.last_loss(), Some(F(4.0)));
}

#[test]
fn fixed_step_with_a_limit_of_one_evaluates_twice() {
    let cfg = LbfgsConfig { max_eval: Some(1), ..LbfgsConfig::<F>::default() };
    let mut opt = Lbfgs::new(cfg).unwrap();
    opt.step_closure(&[t(vec![5.0, 5.0], &[2])], bowl).unwrap();
    assert_eq!(opt.func_evals(), 2);
}

#[test]
fn line_search_stays_within_the_evaluation_limit() {
    for limit in 1..12 {
        let cfg = LbfgsConfig {
            max_iter: 100,
            max_eval: Some(limit),
            line_search: LbfgsLineSearch::StrongWolfe,
            ..LbfgsConfig::<F>::default()
        };
        let mut opt = Lbfgs::new(cfg).unwrap();
        let mut calls = 0;
        opt.step_closure(&[t(vec![-1.2], &[1]), t(vec![1.0], &[1])], |p| {
            calls += 1;
            valley(p)
        })
        .unwrap();
        assert!(calls <= limit);
        assert_eq!(opt.func_evals(), calls as u64);
    }
}

#[test]
fn lbfgs_rejects_an_evaluation_limit_of_zero() {
    let cfg = LbfgsConfig { max_eval: Some(0), ..LbfgsConfig::<F>::default() };
    assert!(matches!(Lbfgs::new(cfg), Err(AutodiffError::InvalidArgument(_))));
}

#[test]
fn cubic_interpolation_finds_the_minimum_of_a_parabola() {
    // (x - 1)^2 from 0 and 3.
    let x = cubic_interpolate(F(0.0), F(1.0), F(-2.0), F(3.0), F(4.0), F(4.0), None);
    assert!((x.0 - 1.0).abs() < 1e-6);
    let y = cubic_interpolate(F(3.0), F(4.0), F(4.0), F(0.0), F(1.0), F(-2.0), None);
    assert!((y.0 - 1.0).abs() < 1e-6);
    let z = cubic_interpolate(
        F(0.0),
        F(1.0),
        F(-2.0),
        F(3.0),
        F(4.0),
        F(4.0),
        Some((F(1.5), F(2.0))),
    );
    assert_eq!(z, F(1.5));
}

#[test]
fn cubic_interpolation_without_a_minimum_takes_the_middle() {
    let y = cubic_interpolate(F(0.0), F(0.0), F(3.0), F(1.0), F(2.0), F(3.0), None);
    assert_eq!(y, F(0.5));
}

#[test]
fn search_without_a_budget_stays_at_its_start() {
    let mut calls = 0;
    let (point, evaluations) = strong_wolfe(
        &mut Infallible::new(|p: &[Tensor<F>]| {
            calls += 1;
            bowl(p)
        }),
        &vec![vec![2]],
        &[F(5.0), F(5.0)],
        F(1.0),
        &[F(-8.0), F(-56.0)],
        F(212.0),
        &[F(8.0), F(56.0)],
        F(-3200.0),
        0,
    )
    .unwrap();
    assert_eq!(evaluations, 0);
    assert_eq!(calls, 0);
    assert_eq!(point.t, F(0.0));
    assert_eq!(point.loss, F(212.0));
}

#[test]
fn search_accepts_a_point_that_meets_the_conditions() {
    let square = |p: &[Tensor<F>]| {
        let x = at(&p[0], &[0]);
        (F(x * x), vec![t(vec![2.0 * x], &[1])])
    };
    let (point, evaluations) = strong_wolfe(
        &mut Infallible::new(square),
        &vec![vec![1]],
        &[F(2.0)],
        F(0.5),
        &[F(-4.0)],
        F(4.0),
        &[F(4.0)],
        F(-16.0),
        10,
    )
    .unwrap();
    assert_eq!(evaluations, 1);
    assert_eq!(point.t, F(0.5));
    assert_eq!(point.loss, F(0.0));
    assert_eq!(point.gradient, vec![F(0.0)]);
}

#[test]
fn tensors_are_recovered_from_a_vector() {
    let params = vec![t(vec![1.0, 2.0, 3.0, 4.0], &[2, 2]), t(vec![5.0], &[1])];
    let flat = flatten_tensors(&params);
    assert_eq!(flat.iter().map(|x| x.0).collect::<Vec<f32>>(), vec![1.0, 2.0, 3.0, 4.0, 5.0]);
    let back = unflatten_tensors(&flat, &vec![vec![2, 2], vec![1]]);
    assert_eq!(dense(&back[0]), vec![1.0, 2.0, 3.0, 4.0]);
    assert_eq!(back[0].shape(), &[2, 2]);
    assert_eq!(dense(&back[1]), vec![5.0]);
}

#[test]
fn an_error_of_the_closure_during_the_search_leaves_the_optimizer_as_it_was() {
    let cfg = LbfgsConfig {
        line_search: LbfgsLineSearch::StrongWolfe,
        ..LbfgsConfig::<F>::default()
    };
    let mut opt = Lbfgs::new(cfg).unwrap();
    let mut calls = 0;
    let result = opt.try_step_closure(&[t(vec![-1.2], &[1]), t(vec![1.0], &[1])], |p| {
        calls += 1;
        if calls == 3 {
            Err(AutodiffError::Backward("third call".to_string()))
        } else {
            Ok(valley(p))
        }
    });
    assert!(matches!(result, Err(AutodiffError::Backward(_))));
    assert_eq!(calls, 3);
    assert_eq!(opt.n_iter(), 0);
    assert_eq!(opt.func_evals(), 0);
    assert_eq!(opt.last_loss(), None);
}

#[test]
fn fixed_distances_evaluate_at_most_once_for_each_iteration() {
    for (max_iter, max_eval, expected) in [(1, Some(5), 1), (4, Some(9), 4), (6, Some(3), 3), (5, Some(1), 2)] {
        let mut optimizer = Lbfgs::new(LbfgsConfig {
            line_search: LbfgsLineSearch::FixedStep,
            lr: F(1e-4),
            max_iter,
            max_eval,
            tolerance_change: F(0.0),
            ..LbfgsConfig::<F>::default()
        })
        .unwrap();
        let mut calls = 0;
        optimizer
            .step_closure(&[t(vec![5.0, 5.0], &[2])], |p: &[Tensor<F>]| {
                calls += 1;
                bowl(p)
            })
            .unwrap();
        assert_eq!(calls, expected);
    }
}

#[test]
fn search_never_makes_the_loss_worse() {
    let bumpy = |p: &[Tensor<F>]| {
        let x = at(&p[0], &[0]);
        let loss = 0.1 * x * x + (3.0 * x).sin();
        (F(loss), vec![t(vec![0.2 * x + 3.0 * (3.0 * x).cos()], &[1])])
    };
    for start in [-4.0f32, -1.3, 0.2, 2.0, 5.5] {
        let (f0, g) = bumpy(&[t(vec![start], &[1])]);
        let g0 = at(&g[0], &[0]);
        for t0 in [0.0f32, 1e-3, 0.3, 1.0, 20.0] {
            for max_ls in 0..8 {
                let (point, evaluations) = strong_wolfe(
                    &mut Infallible::new(bumpy),
                    &vec![vec![1]],
                    &[F(start)],
                    F(t0),
                    &[F(-g0)],
                    f0,
                    &[F(g0)],
                    F(-g0 * g0),
                    max_ls,
                )
                .unwrap();
                assert!(evaluations <= max_ls);
                assert!(point.loss.0 <= f0.0);
            }
        }
    }
}

#[test]
fn step_calls_a_given_objective_as_often_as_it_counts() {
    let mut optimizer = Lbfgs::new(LbfgsConfig { max_iter: 3, ..LbfgsConfig::<F>::default() }).unwrap();
    let mut calls = 0;
    let mut objective = Infallible::new(|p: &[Tensor<F>]| {
        calls += 1;
        valley(p)
    });
    optimizer.step_with(&[t(vec![-1.2, 1.0], &[2])], &mut objective).unwrap();
    drop(objective);
    assert_eq!(calls, optimizer.func_evals());
}

fn reason<T>(result: Result<T, AutodiffError>) -> String {
    match result {
        Err(AutodiffError::InvalidArgument(text)) => text,
        _ => String::new(),
    }
}

#[test]
fn refused_steps_are_told() {
    let base = LbfgsConfig::<F>::default();
    assert_eq!(
        reason(Lbfgs::new(LbfgsConfig { history_size: 0, ..base })),
        "Lbfgs::new: history_size must be >= 1, got 0",
    );
    assert_eq!(
        reason(Lbfgs::new(LbfgsConfig { max_iter: usize::MAX, ..base })),
        "Lbfgs::new: max_iter * 5 overflows usize (max_iter=18446744073709551615); pass config.max_eval explicitly to avoid the derived `max_iter * 5 / 4` computation",
    );
    let mut optimizer = Lbfgs::new(base).unwrap();
    let params = [t(vec![1.0], &[1])];
    assert_eq!(
        reason(optimizer.step_closure(&params, |_| (F(f32::INFINITY), vec![]))),
        "Lbfgs: closure returned non-finite loss inf",
    );
    assert_eq!(
        reason(optimizer.step_closure(&params, |_| (F(1.0), vec![]))),
        "Lbfgs: closure returned 0 gradients, expected 1 (one per parameter slot)",
    );
    let far = [t(vec![f32::NAN], &[1])];
    assert_eq!(
        reason(optimizer.step_closure(&far, |_| (F(1.0), vec![]))),
        "Lbfgs: Lbfgs::try_step_closure: params contains a non-finite value (likely overflow); state left unchanged",
    );
    assert_eq!(
        reason(dot_f64("x", &[F(3e38), F(3e38)], &[F(3e38), F(3e38)])),
        format!(
            "Lbfgs: x overflowed to a non-finite f32 value when rounding the f64 accumulator (acc={}); state left unchanged",
            2.0 * (3e38_f32 as f64 * 3e38_f32 as f64),
        ),
    );
}

#[test]
fn searching_step_does_not_raise_the_loss() {
    let config = LbfgsConfig {
        line_search: LbfgsLineSearch::StrongWolfe,
        max_iter: 3,
        ..LbfgsConfig::<F>::default()
    };
    let rosenbrock = |p: &[Tensor<F>]| {
        let (x, y) = (at(&p[0], &[0]), at(&p[0], &[1]));
        let loss = (1.0 - x) * (1.0 - x) + 100.0 * (y - x * x) * (y - x * x);
        let grads = vec![
            -2.0 * (1.0 - x) - 400.0 * x * (y - x * x),
            200.0 * (y - x * x),
        ];
        (F(loss), vec![t(grads, &[2])])
    };
    let mut optimizer = Lbfgs::new(config).unwrap();
    let mut params = vec![t(vec![-1.2, 1.0], &[2])];
    for _ in 0..12 {
        params = optimizer.step_closure(&params, rosenbrock).unwrap();
        let reached = rosenbrock(&params).0 .0;
        assert!(reached <= optimizer.last_loss().unwrap().0);
    }
    assert!(rosenbrock(&params).0 .0 < 1e-3);
}
