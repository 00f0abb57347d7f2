use autodiff_nn::dict::StateDict;
use autodiff_nn::error::AutodiffError;
use autodiff_nn::number::{Double, Real, Single};
use autodiff_nn::optim::adadelta::{Adadelta, AdadeltaConfig};
use autodiff_nn::optim::adagrad::{Adagrad, AdagradConfig};
use autodiff_nn::optim::adam::{Adam, AdamConfig};
use autodiff_nn::optim::adamax::{Adamax, AdamaxConfig};
use autodiff_nn::optim::adamw::{AdamW, AdamWConfig};
use autodiff_nn::optim::lamb::{Lamb, LambConfig};
use autodiff_nn::optim::lr_scheduler::LrScheduler;
use autodiff_nn::optim::nadam::{NAdam, NAdamConfig};
use autodiff_nn::optim::param_group::{
    resolve_slot_hparams, ParamGroup, ParamGroupStep,
};
use autodiff_nn::optim::radam::{RAdam, RAdamConfig};
use autodiff_nn::optim::reduce_lr_on_plateau::{
    PlateauMode, ReduceLrOnPlateau, ReduceLrOnPlateauConfig, ThresholdMode,
};
use autodiff_nn::optim::rmsprop::{RmsProp, RmsPropConfig};
use autodiff_nn::optim::state_dict::{
    decode_bits_u16x4, decode_f64_tensor, decode_state_dict, decode_u16x4_tensor, encode_bits_u16x4,
    encode_f64_tensor, encode_u16x4_tensor, marker_key, slot_key, validate_marker,
    validate_mu_product_range, validate_pow_t_range, validate_step_count_headroom, OptimizerStateDict, BETA2_POW_T_KEY,
    MU_PRODUCT_KEY, NUM_SLOTS_KEY, STEP_COUNT_KEY,
};
use autodiff_nn::tensor::Tensor;

#[derive(Clone, Copy, PartialEq, Debug)]
struct F(f32);
#[derive(Clone, Copy, PartialEq, Debug)]
struct D(f64);

impl Real for F {
    fn literal(mantissa: i64, exponent: i32) -> F {
        F(format!("{}e{}", mantissa, exponent).parse().unwrap())
    }
    fn one_equals_one() {}
    fn extremes(self, _other: F) {}
    fn order(self, _other: F, _third: F) {}
    fn signs(self, _other: F) {}
    fn midpoint(self, _low: F, _high: F) {}
    fn unit_interval(self, _other: F) {}
    fn decimals(_low: i64, _high: i64, _places: u32) {}
    fn neutral(self, _other: F) {}
    fn fused_operands(self, _factor: F, _addend: F) {}
    fn infinity() -> F { F(f32::INFINITY) }
    fn nan() -> F { F(f32::NAN) }
    fn add(self, o: F) -> F { F(self.0 + o.0) }
    fn sub(self, o: F) -> F { F(self.0 - o.0) }
    fn mul(self, o: F) -> F { F(self.0 * o.0) }
    fn div(self, o: F) -> F { F(self.0 / o.0) }
    fn neg(self) -> F { F(-self.0) }
    fn mul_add(self, a: F, b: F) -> F { F(self.0.mul_add(a.0, b.0)) }
    fn sqrt(self) -> F { F(self.0.sqrt()) }
    fn abs(self) -> F { F(self.0.abs()) }
    fn max(self, o: F) -> F { F(self.0.max(o.0)) }
    fn min(self, o: F) -> F { F(self.0.min(o.0)) }
    fn powi(self, n: i32) -> F { F(self.0.powi(n)) }
    fn is_finite(self) -> bool { self.0.is_finite() }
    fn is_nan(self) -> bool { self.0.is_nan() }
    fn lt(self, o: F) -> bool { self.0 < o.0 }
    fn le(self, o: F) -> bool { self.0 <= o.0 }
    fn eq(self, o: F) -> bool { self.0 == o.0 }
    fn show(self) -> String { format!("{}", self.0) }
}
impl Real for D {
    fn literal(mantissa: i64, exponent: i32) -> D {
        D(format!("{}e{}", mantissa, exponent).parse().unwrap())
    }
    fn one_equals_one() {}
    fn extremes(self, _other: D) {}
    fn order(self, _other: D, _third: D) {}
    fn signs(self, _other: D) {}
    fn midpoint(self, _low: D, _high: D) {}
    fn unit_interval(self, _other: D) {}
    fn decimals(_low: i64, _high: i64, _places: u32) {}
    fn neutral(self, _other: D) {}
    fn fused_operands(self, _factor: D, _addend: D) {}
    fn infinity() -> D { D(f64::INFINITY) }
    fn nan() -> D { D(f64::NAN) }
    fn add(self, o: D) -> D { D(self.0 + o.0) }
    fn sub(self, o: D) -> D { D(self.0 - o.0) }
    fn mul(self, o: D) -> D { D(self.0 * o.0) }
    fn div(self, o: D) -> D { D(self.0 / o.0) }
    fn neg(self) -> D { D(-self.0) }
    fn mul_add(self, a: D, b: D) -> D { D(self.0.mul_add(a.0, b.0)) }
    fn sqrt(self) -> D { D(self.0.sqrt()) }
    fn abs(self) -> D { D(self.0.abs()) }
    fn max(self, o: D) -> D { D(self.0.max(o.0)) }
    fn min(self, o: D) -> D { D(self.0.min(o.0)) }
    fn powi(self, n: i32) -> D { D(self.0.powi(n)) }
    fn is_finite(self) -> bool { self.0.is_finite() }
    fn is_nan(self) -> bool { self.0.is_nan() }
    fn lt(self, o: D) -> bool { self.0 < o.0 }
    fn le(self, o: D) -> bool { self.0 <= o.0 }
    fn eq(self, o: D) -> bool { self.0 == o.0 }
    fn show(self) -> String { format!("{}", self.0) }
}
impl Double for D {
    fn of_bits_inverts_bits(self) {}
    fn integers(_n: u128) {}
    fn powers(self, _exponent: D) {}
    fn from_integer(n: u128) -> D { D(n as f64) }
    fn powf(self, e: D) -> D { D(self.0.powf(e.0)) }
    fn cos(self) -> D { D(self.0.cos()) }
    fn sin(self) -> D { D(self.0.sin()) }
    fn to_bits(self) -> u64 { self.0.to_bits() }
    fn from_bits(bits: u64) -> D { D(f64::from_bits(bits)) }
}
impl Single for F {
    type Wide = D;
    fn words_are_exact(_word: u16) {}
    fn precisions(self, _wide: D) {}
    fn binary_scaling(self, _scale: F) {}
    fn widen(self) -> D { D(self.0 as f64) }
    fn round(wide: D) -> F { F(wide.0 as f32) }
    fn from_word(word: u16) -> F { F(word as f32) }
    fn to_word(self) -> u16 { self.0 as u16 }
    fn is_integral(self) -> bool { self.0.fract() == 0.0 }
    fn is_subnormal(self) -> bool { self.0.is_subnormal() }
}

fn t(data: Vec<f32>, shape: &[usize]) -> Tensor<F> {
    Tensor::new(data.into_iter().map(F).collect(), shape).unwrap()
}

fn at(tensor: &Tensor<F>, index: &[usize]) -> f32 {
    tensor.get(index).unwrap().0
}

fn dense(tensor: &Tensor<F>) -> Vec<f32> {
    tensor.as_slice().iter().map(|x| x.0).collect()
}

#[test]
fn resolve_slot_hparams_empty_groups_uses_defaults_for_all_slots() {
    let result = resolve_slot_hparams(&Vec::new(), 3, F(0.1), F(0.2), "Test").unwrap();
    assert_eq!(result.len(), 3);
    for hp in &result {
        assert_eq!(hp.lr, F(0.1));
        assert_eq!(hp.weight_decay, F(0.2));
    }
}

#[test]
fn resolve_slot_hparams_overrides_only_assigned_slots() {
    let groups = vec![ParamGroup::new(vec![1], F(0.5), F(0.0))];
    let result = resolve_slot_hparams(&groups, 3, F(0.1), F(0.2), "Test").unwrap();
    assert_eq!(result[0].lr, F(0.1));
    assert_eq!(result[0].weight_decay, F(0.2));
    assert_eq!(result[1].lr, F(0.5));
    assert_eq!(result[1].weight_decay, F(0.0));
    assert_eq!(result[2].lr, F(0.1));
    assert_eq!(result[2].weight_decay, F(0.2));
}

#[test]
fn resolve_slot_hparams_rejects_empty_group_params() {
    let groups = vec![ParamGroup::new(vec![], F(0.5), F(0.0))];
    let err = resolve_slot_hparams(&groups, 3, F(0.1), F(0.2), "Test").err().unwrap();
    assert!(matches!(err, AutodiffError::InvalidArgument(_)));
}

#[test]
fn resolve_slot_hparams_rejects_out_of_range_index() {
    let groups = vec![ParamGroup::new(vec![5], F(0.5), F(0.0))];
    let err = resolve_slot_hparams(&groups, 3, F(0.1), F(0.2), "Test").err().unwrap();
    assert!(matches!(err, AutodiffError::InvalidArgument(_)));
}

#[test]
fn resolve_slot_hparams_rejects_duplicate_within_group() {
    let groups = vec![ParamGroup::new(vec![0, 0], F(0.5), F(0.0))];
    let err = resolve_slot_hparams(&groups, 3, F(0.1), F(0.2), "Test").err().unwrap();
    assert!(matches!(err, AutodiffError::InvalidArgument(_)));
}

#[test]
fn resolve_slot_hparams_rejects_duplicate_across_groups() {
    let groups = vec![
        ParamGroup::new(vec![0], F(0.5), F(0.0)),
        ParamGroup::new(vec![0], F(0.1), F(0.0)),
    ];
    let err = resolve_slot_hparams(&groups, 3, F(0.1), F(0.2), "Test").err().unwrap();
    assert!(matches!(err, AutodiffError::InvalidArgument(_)));
}

#[test]
fn resolve_slot_hparams_rejects_negative_lr() {
    let groups = vec![ParamGroup::new(vec![0], F(-0.1), F(0.0))];
    let err = resolve_slot_hparams(&groups, 3, F(0.1), F(0.2), "Test").err().unwrap();
    assert!(matches!(err, AutodiffError::InvalidArgument(_)));
}

#[test]
fn resolve_slot_hparams_rejects_nan_weight_decay() {
    let groups = vec![ParamGroup::new(vec![0], F(0.1), F(f32::NAN))];
    let err = resolve_slot_hparams(&groups, 3, F(0.1), F(0.2), "Test").err().unwrap();
    assert!(matches!(err, AutodiffError::InvalidArgument(_)));
}

#[test]
fn resolve_slot_hparams_rejects_non_finite_lr() {
    let groups = vec![ParamGroup::new(vec![0], F(f32::INFINITY), F(0.0))];
    let err = resolve_slot_hparams(&groups, 3, F(0.1), F(0.2), "Test").err().unwrap();
    assert!(matches!(err, AutodiffError::InvalidArgument(_)));
}

#[test]
fn rejects_invalid_base_lr() {
    let config = ReduceLrOnPlateauConfig::<F>::default();
    assert!(ReduceLrOnPlateau::new(F(0.0), config).is_err());
    assert!(ReduceLrOnPlateau::new(F(-0.1), config).is_err());
    assert!(ReduceLrOnPlateau::new(F(f32::NAN), config).is_err());
    assert!(ReduceLrOnPlateau::new(F(f32::INFINITY), config).is_err());
}

#[test]
fn rejects_invalid_factor() {
    let base = ReduceLrOnPlateauConfig::<F>::default();
    for factor in [0.0, 1.0, 1.5, f32::NAN, -0.5] {
        let config = ReduceLrOnPlateauConfig { factor: F(factor), ..base };
        assert!(
            ReduceLrOnPlateau::new(F(0.1), config).is_err()
    );
    }
}

#[test]
fn rejects_min_lr_greater_than_base_lr() {
    let config = ReduceLrOnPlateauConfig {
        min_lr: F(0.5),
        ..ReduceLrOnPlateauConfig::<F>::default()
    };
    assert!(ReduceLrOnPlateau::new(F(0.1), config).is_err());
}

#[test]
fn lr_at_ignores_step_and_returns_current_lr() {
    let sched = ReduceLrOnPlateau::new(F(0.1), ReduceLrOnPlateauConfig::<F>::default()).unwrap();
    assert_eq!(sched.lr_at(0), F(0.1));
    assert_eq!(sched.lr_at(999), F(0.1));
}

#[test]
fn u16x4_roundtrip_u64_boundary_values() {
    for v in [0u64, 1, u32::MAX as u64 + 1, u64::MAX] {
        let encoded = encode_bits_u16x4::<F>(v);
        let decoded = decode_bits_u16x4("k", &encoded).unwrap();
        assert_eq!(decoded, v);
    }
}

#[test]
fn u16x4_roundtrip_f64_boundary_values() {
    for v in [
        1.0f64,
        0.0f64,
        f64::MIN_POSITIVE,
        5e-324f64,
        0.999f64.powi(10_000),
    ] {
        let encoded = encode_bits_u16x4::<F>(v.to_bits());
        let decoded = f64::from_bits(decode_bits_u16x4("k", &encoded).unwrap());
        assert_eq!(decoded.to_bits(), v.to_bits());
    }
}

#[test]
fn decode_rejects_non_integer_word() {
    let err = decode_bits_u16x4("k", &[F(0.5), F(0.0), F(0.0), F(0.0)]).err().unwrap();
    assert!(matches!(err, AutodiffError::InvalidArgument(_)));
}

#[test]
fn decode_rejects_negative_word() {
    let err = decode_bits_u16x4("k", &[F(-1.0), F(0.0), F(0.0), F(0.0)]).err().unwrap();
    assert!(matches!(err, AutodiffError::InvalidArgument(_)));
}

#[test]
fn decode_rejects_out_of_range_word() {
    let err = decode_bits_u16x4("k", &[F(65536.0), F(0.0), F(0.0), F(0.0)]).err().unwrap();
    assert!(matches!(err, AutodiffError::InvalidArgument(_)));
}

#[test]
fn decode_rejects_nan_word() {
    let err = decode_bits_u16x4("k", &[F(f32::NAN), F(0.0), F(0.0), F(0.0)]).err().unwrap();
    assert!(matches!(err, AutodiffError::InvalidArgument(_)));
}

#[test]
fn decode_rejects_inf_word() {
    let err = decode_bits_u16x4("k", &[F(f32::INFINITY), F(0.0), F(0.0), F(0.0)]).err().unwrap();
    assert!(matches!(err, AutodiffError::InvalidArgument(_)));
}

#[test]
fn decode_rejects_wrong_length() {
    let err = decode_bits_u16x4("k", &[F(0.0), F(0.0), F(0.0)]).err().unwrap();
    assert!(matches!(err, AutodiffError::InvalidArgument(_)));
}

#[test]
fn pow_t_range_rejects_out_of_range() {
    assert!(validate_pow_t_range("k", D(1.5)).is_err());
    assert!(validate_pow_t_range("k", D(-0.1)).is_err());
    assert!(validate_pow_t_range("k", D(f64::NAN)).is_err());
    assert!(validate_pow_t_range("k", D(0.0)).is_ok());
    assert!(validate_pow_t_range("k", D(1.0)).is_ok());
}

#[test]
fn mu_product_range_rejects_out_of_range() {
    assert!(validate_mu_product_range("k", F(-0.1)).is_err());
    assert!(validate_mu_product_range("k", F(1.5)).is_err());
    assert!(validate_mu_product_range("k", F(f32::MAX)).is_err());
    assert!(validate_mu_product_range("k", F(f32::NAN)).is_err());
    assert!(validate_mu_product_range("k", F(f32::INFINITY)).is_err());
    assert!(validate_mu_product_range("k", F(0.0)).is_ok());
    assert!(validate_mu_product_range("k", F(1.0)).is_ok());
    assert!(validate_mu_product_range("k", F(0.5)).is_ok());
}

#[test]
fn step_count_headroom_rejects_values_too_close_to_u64_max() {
    assert!(validate_step_count_headroom("adamw", u64::MAX, false).is_err());
    assert!(validate_step_count_headroom("adamw", u64::MAX - 1, false).is_ok());
    assert!(validate_step_count_headroom("adamw", u64::MAX - 2, false).is_ok());
    assert!(validate_step_count_headroom("adamw", 0, false).is_ok());

    assert!(validate_step_count_headroom("nadam", u64::MAX, true).is_err());
    assert!(validate_step_count_headroom("nadam", u64::MAX - 1, true).is_err());
    assert!(validate_step_count_headroom("nadam", u64::MAX - 2, true).is_ok());
    assert!(validate_step_count_headroom("nadam", 0, true).is_ok());
}

fn base_state(kind: &str, num_slots: u64) -> StateDict<F> {
    let mut state = StateDict::new();
    state.insert(marker_key(kind), t(vec![1.0], &[1]));
    state.insert(STEP_COUNT_KEY.to_string(), encode_u16x4_tensor(3));
    state.insert(
        NUM_SLOTS_KEY.to_string(),
        encode_u16x4_tensor(num_slots),
    );
    state
}

#[test]
fn decode_state_dict_empty_slots_roundtrip() {
    let state = base_state("adamw", 0);
    let decoded = decode_state_dict("adamw", &state, &["m", "v"], false, false, false)
        .unwrap();
    assert_eq!(decoded.step_count, 3);
    assert!(decoded.slots.is_empty());
}

#[test]
fn decode_state_dict_rejects_step_count_at_u64_max() {
    let mut state = base_state("adamw", 0);
    state.insert(
        STEP_COUNT_KEY.to_string(),
        encode_u16x4_tensor(u64::MAX),
    );
    let err = decode_state_dict("adamw", &state, &["m", "v"], false, false, false).err().unwrap();
    assert!(matches!(err, AutodiffError::InvalidArgument(_)));

    let mut state_nadam = base_state("nadam", 0);
    state_nadam.insert(
        STEP_COUNT_KEY.to_string(),
        encode_u16x4_tensor(u64::MAX - 1),
    );
    state_nadam.insert(
        BETA2_POW_T_KEY.to_string(),
        encode_f64_tensor(D(0.999)),
    );
    state_nadam.insert(
        MU_PRODUCT_KEY.to_string(),
        t(vec![1.0], &[1]),
    );
    let err_nadam = decode_state_dict(
        "nadam",
        &state_nadam,
        &["exp_avg", "exp_avg_sq"],
        false,
        true,
        true,
    )
    .err().unwrap();
    assert!(matches!(err_nadam, AutodiffError::InvalidArgument(_)));
}

#[test]
fn decode_state_dict_rejects_mu_product_out_of_range() {
    let mut state = base_state("nadam", 0);
    state.insert(
        BETA2_POW_T_KEY.to_string(),
        encode_f64_tensor(D(0.999)),
    );
    state.insert(
        MU_PRODUCT_KEY.to_string(),
        t(vec![f32::MAX], &[1]),
    );
    let err = decode_state_dict(
        "nadam",
        &state,
        &["exp_avg", "exp_avg_sq"],
        false,
        true,
        true,
    )
    .err().unwrap();
    assert!(matches!(err, AutodiffError::InvalidArgument(_)));

    let mut state_neg = base_state("nadam", 0);
    state_neg.insert(
        BETA2_POW_T_KEY.to_string(),
        encode_f64_tensor(D(0.999)),
    );
    state_neg.insert(
        MU_PRODUCT_KEY.to_string(),
        t(vec![-1.0], &[1]),
    );
    let err_neg = decode_state_dict(
        "nadam",
        &state_neg,
        &["exp_avg", "exp_avg_sq"],
        false,
        true,
        true,
    )
    .err().unwrap();
    assert!(matches!(err_neg, AutodiffError::InvalidArgument(_)));
}

#[test]
fn decode_state_dict_rejects_missing_num_slots_key() {
    let mut state = StateDict::new();
    state.insert(marker_key("adamw"), t(vec![1.0], &[1]));
    state.insert(STEP_COUNT_KEY.to_string(), encode_u16x4_tensor(3));
    let err = decode_state_dict("adamw", &state, &["m", "v"], false, false, false).err().unwrap();
    assert!(matches!(err, AutodiffError::InvalidArgument(_)));
}

#[test]
fn decode_state_dict_rejects_num_slots_inconsistent_with_key_count() {
    let state = base_state("adamw", 1_000_000);
    let err = decode_state_dict("adamw", &state, &["m", "v"], false, false, false).err().unwrap();
    assert!(matches!(err, AutodiffError::InvalidArgument(_)));
}

#[test]
fn decode_state_dict_rejects_num_slots_overflowing_slot_key_count() {
    let state = base_state("adamw", usize::MAX as u64);
    let err = decode_state_dict("adamw", &state, &["m", "v"], false, false, false).err().unwrap();
    assert!(matches!(err, AutodiffError::InvalidArgument(_)));
}

#[test]
fn decode_state_dict_detects_missing_and_unexpected_keys() {
    let mut state = base_state("adamw", 1);
    state.insert(slot_key(0, "m"), t(vec![1.0, 2.0], &[2]));
    let err = decode_state_dict("adamw", &state, &["m", "v"], false, false, false).err().unwrap();
    assert!(matches!(err, AutodiffError::InvalidArgument(_)));

    let mut state2 = base_state("adamw", 0);
    state2.insert(
        "unexpected.key".to_string(),
        t(vec![0.0], &[1]),
    );
    let err2 =
        decode_state_dict("adamw", &state2, &["m", "v"], false, false, false).err().unwrap();
    assert!(matches!(err2, AutodiffError::InvalidArgument(_)));
}

#[test]
fn decode_state_dict_rejects_non_canonical_slot_index() {
    let mut state = base_state("adamw", 1);
    state.insert(
        "state.01.m".to_string(),
        t(vec![1.0, 2.0], &[2]),
    );
    state.insert(
        "state.01.v".to_string(),
        t(vec![1.0, 2.0], &[2]),
    );
    let err = decode_state_dict("adamw", &state, &["m", "v"], false, false, false).err().unwrap();
    assert!(matches!(err, AutodiffError::InvalidArgument(_)));
}

#[test]
fn decode_state_dict_rejects_marker_kind_mismatch() {
    let state = base_state("adam", 0);
    let err = decode_state_dict("adamw", &state, &["m", "v"], false, false, false).err().unwrap();
    assert!(matches!(err, AutodiffError::InvalidArgument(_)));
}

#[test]
fn decode_state_dict_rejects_slot_shape_mismatch() {
    let mut state = base_state("adamw", 1);
    state.insert(slot_key(0, "m"), t(vec![1.0, 2.0], &[2]));
    state.insert(
        slot_key(0, "v"),
        t(vec![1.0, 2.0, 3.0], &[3]),
    );
    let err = decode_state_dict("adamw", &state, &["m", "v"], false, false, false).err().unwrap();
    assert!(matches!(err, AutodiffError::InvalidArgument(_)));
}

fn pair() -> (Tensor<F>, Tensor<F>) {
    (t(vec![1.0, -2.0, 0.5], &[3]), t(vec![0.1, -0.2, 0.3], &[3]))
}

#[test]
fn adadelta_resumes_bit_for_bit() {
    let (param, grad) = pair();
    let mut a = Adadelta::new(AdadeltaConfig::<F>::default()).unwrap();
    a.step(&[(&param, &grad)]).unwrap();
    let mut b = Adadelta::new(AdadeltaConfig::<F>::default()).unwrap();
    b.load_state_dict(a.state_dict().unwrap()).unwrap();
    let x = a.step(&[(&param, &grad)]).unwrap();
    let y = b.step(&[(&param, &grad)]).unwrap();
    assert_eq!(dense(&x[0]), dense(&y[0]));
    assert_eq!(a.step_count(), b.step_count());
}

#[test]
fn adagrad_resumes_bit_for_bit() {
    let (param, grad) = pair();
    let mut a = Adagrad::new(AdagradConfig::<F>::default()).unwrap();
    a.step(&[(&param, &grad)]).unwrap();
    let mut b = Adagrad::new(AdagradConfig::<F>::default()).unwrap();
    b.load_state_dict(a.state_dict().unwrap()).unwrap();
    let x = a.step(&[(&param, &grad)]).unwrap();
    let y = b.step(&[(&param, &grad)]).unwrap();
    assert_eq!(dense(&x[0]), dense(&y[0]));
}

#[test]
fn adam_resumes_bit_for_bit() {
    let (param, grad) = pair();
    let mut a = Adam::new(AdamConfig::<F>::default()).unwrap();
    a.step(&[(&param, &grad)]).unwrap();
    a.step(&[(&param, &grad)]).unwrap();
    let mut b = Adam::new(AdamConfig::<F>::default()).unwrap();
    b.load_state_dict(a.state_dict().unwrap()).unwrap();
    let x = a.step(&[(&param, &grad)]).unwrap();
    let y = b.step(&[(&param, &grad)]).unwrap();
    assert_eq!(dense(&x[0]), dense(&y[0]));
    assert_eq!(b.step_count(), 3);
}

#[test]
fn adamax_resumes_bit_for_bit() {
    let (param, grad) = pair();
    let mut a = Adamax::new(AdamaxConfig::<F>::default()).unwrap();
    a.step(&[(&param, &grad)]).unwrap();
    let mut b = Adamax::new(AdamaxConfig::<F>::default()).unwrap();
    b.load_state_dict(a.state_dict().unwrap()).unwrap();
    let x = a.step(&[(&param, &grad)]).unwrap();
    let y = b.step(&[(&param, &grad)]).unwrap();
    assert_eq!(dense(&x[0]), dense(&y[0]));
}

#[test]
fn adamw_resumes_bit_for_bit() {
    let (param, grad) = pair();
    let mut a = AdamW::new(AdamWConfig::<F>::default()).unwrap();
    a.step(&[(&param, &grad)]).unwrap();
    let mut b = AdamW::new(AdamWConfig::<F>::default()).unwrap();
    b.load_state_dict(a.state_dict().unwrap()).unwrap();
    let x = a.step(&[(&param, &grad)]).unwrap();
    let y = b.step(&[(&param, &grad)]).unwrap();
    assert_eq!(dense(&x[0]), dense(&y[0]));
}

#[test]
fn lamb_resumes_bit_for_bit() {
    let (param, grad) = pair();
    let mut a = Lamb::new(LambConfig::<F>::default()).unwrap();
    a.step(&[(&param, &grad)]).unwrap();
    let mut b = Lamb::new(LambConfig::<F>::default()).unwrap();
    b.load_state_dict(a.state_dict().unwrap()).unwrap();
    let x = a.step(&[(&param, &grad)]).unwrap();
    let y = b.step(&[(&param, &grad)]).unwrap();
    assert_eq!(dense(&x[0]), dense(&y[0]));
}

#[test]
fn nadam_resumes_bit_for_bit() {
    let (param, grad) = pair();
    let mut a = NAdam::new(NAdamConfig::<F>::default()).unwrap();
    a.step(&[(&param, &grad)]).unwrap();
    a.step(&[(&param, &grad)]).unwrap();
    let mut b = NAdam::new(NAdamConfig::<F>::default()).unwrap();
    b.load_state_dict(a.state_dict().unwrap()).unwrap();
    let x = a.step(&[(&param, &grad)]).unwrap();
    let y = b.step(&[(&param, &grad)]).unwrap();
    assert_eq!(dense(&x[0]), dense(&y[0]));
}

#[test]
fn radam_resumes_bit_for_bit() {
    let (param, grad) = pair();
    let mut a = RAdam::new(RAdamConfig::<F>::default()).unwrap();
    for _ in 0..7 {
        a.step(&[(&param, &grad)]).unwrap();
    }
    let mut b = RAdam::new(RAdamConfig::<F>::default()).unwrap();
    b.load_state_dict(a.state_dict().unwrap()).unwrap();
    let x = a.step(&[(&param, &grad)]).unwrap();
    let y = b.step(&[(&param, &grad)]).unwrap();
    assert_eq!(dense(&x[0]), dense(&y[0]));
    assert_eq!(b.step_count(), 8);
}

#[test]
fn rmsprop_resumes_bit_for_bit() {
    let (param, grad) = pair();
    let config = RmsPropConfig { momentum: F(0.9), centered: true, ..RmsPropConfig::<F>::default() };
    let mut a = RmsProp::new(config).unwrap();
    a.step(&[(&param, &grad)]).unwrap();
    let mut b = RmsProp::new(config).unwrap();
    b.load_state_dict(a.state_dict().unwrap()).unwrap();
    let x = a.step(&[(&param, &grad)]).unwrap();
    let y = b.step(&[(&param, &grad)]).unwrap();
    assert_eq!(dense(&x[0]), dense(&y[0]));
}

#[test]
fn state_of_another_kind_is_refused_and_changes_nothing() {
    let (param, grad) = pair();
    let mut a = Adam::new(AdamConfig::<F>::default()).unwrap();
    a.step(&[(&param, &grad)]).unwrap();
    let mut b = AdamW::new(AdamWConfig::<F>::default()).unwrap();
    b.step(&[(&param, &grad)]).unwrap();
    let result = b.load_state_dict(a.state_dict().unwrap());
    assert!(matches!(result, Err(AutodiffError::InvalidArgument(_))));
    assert_eq!(b.step_count(), 1);
}

#[test]
fn saved_state_has_one_entry_for_each_buffer() {
    let (param, grad) = pair();
    let mut a = Adam::new(AdamConfig::<F>::default()).unwrap();
    a.step(&[(&param, &grad), (&param, &grad)]).unwrap();
    let dict = a.state_dict().unwrap();
    assert_eq!(dict.len(), 5 + 4);
    assert!(dict.contains_key("__optimizer__.adam"));
    assert!(dict.contains_key("state.0.m"));
    assert!(dict.contains_key("state.1.v"));
    assert!(!dict.contains_key("state.2.m"));
    assert_eq!(dict.get("state.0.m").unwrap().shape(), &[3]);
}

#[test]
fn tensors_of_words_carry_numbers() {
    let tensor: Tensor<F> = encode_f64_tensor(D(0.1));
    assert_eq!(tensor.shape(), &[4]);
    assert_eq!(decode_f64_tensor("k", &tensor).unwrap(), D(0.1));
    let count: Tensor<F> = encode_u16x4_tensor(0x0001_0002_0003_0004);
    assert_eq!(decode_u16x4_tensor("k", &count).unwrap(), 0x0001_0002_0003_0004);
    assert!(decode_u16x4_tensor("k", &t(vec![0.0; 4], &[2, 2])).is_err());
}

#[test]
fn groups_give_slots_their_own_settings() {
    let (param, grad) = pair();
    let params = vec![param.duplicate(), param.duplicate()];
    let grads = vec![grad.duplicate(), grad.duplicate()];
    let mut grouped = AdamW::new(AdamWConfig::<F>::default()).unwrap();
    let groups = vec![ParamGroup::new(vec![1], F(0.0), F(0.0))];
    let refs: Vec<&Tensor<F>> = params.iter().collect();
    let grad_refs: Vec<&Tensor<F>> = grads.iter().collect();
    let out = grouped.step_with_groups(&refs, &grad_refs, &groups).unwrap();
    let mut plain = AdamW::new(AdamWConfig::<F>::default()).unwrap();
    let alone = plain.step(&[(&param, &grad)]).unwrap();
    assert_eq!(dense(&out[0]), dense(&alone[0]));
    assert_eq!(dense(&out[1]), dense(&param));
}

#[test]
fn step_without_groups_is_an_ordinary_step() {
    let (param, grad) = pair();
    let mut a = Lamb::new(LambConfig::<F>::default()).unwrap();
    let mut b = Lamb::new(LambConfig::<F>::default()).unwrap();
    let x = a.step_with_groups(&[&param], &[&grad], &Vec::new()).unwrap();
    let y = b.step(&[(&param, &grad)]).unwrap();
    assert_eq!(dense(&x[0]), dense(&y[0]));
}

#[test]
fn grouped_step_wants_a_gradient_for_each_parameter() {
    let (param, grad) = pair();
    let mut a = Adam::new(AdamConfig::<F>::default()).unwrap();
    let result = a.step_with_groups(&[&param, &param], &[&grad], &Vec::new());
    assert!(matches!(result, Err(AutodiffError::InvalidArgument(_))));
    assert_eq!(a.step_count(), 0);
}

#[test]
fn plateau_reduces_the_learning_rate_after_patience_runs_out() {
    let config = ReduceLrOnPlateauConfig {
        patience: 1,
        factor: F(0.5),
        ..ReduceLrOnPlateauConfig::<F>::default()
    };
    let mut schedule = ReduceLrOnPlateau::new(F(1.0), config).unwrap();
    assert_eq!(schedule.step(F(3.0)).unwrap(), F(1.0));
    assert_eq!(schedule.step(F(3.0)).unwrap(), F(1.0));
    assert_eq!(schedule.num_bad_epochs(), 1);
    assert_eq!(schedule.step(F(3.0)).unwrap(), F(0.5));
    assert_eq!(schedule.num_bad_epochs(), 0);
    assert_eq!(schedule.best(), F(3.0));
    assert_eq!(schedule.step(F(1.0)).unwrap(), F(0.5));
    assert_eq!(schedule.best(), F(1.0));
    assert_eq!(schedule.current_lr(), F(0.5));
}

#[test]
fn plateau_does_not_count_while_it_cools_down() {
    let config = ReduceLrOnPlateauConfig {
        mode: PlateauMode::Max,
        threshold_mode: ThresholdMode::Abs,
        patience: 0,
        cooldown: 2,
        factor: F(0.5),
        ..ReduceLrOnPlateauConfig::<F>::default()
    };
    let mut schedule = ReduceLrOnPlateau::new(F(1.0), config).unwrap();
    schedule.step(F(1.0)).unwrap();
    assert_eq!(schedule.step(F(1.0)).unwrap(), F(0.5));
    assert_eq!(schedule.cooldown_counter(), 2);
    assert_eq!(schedule.step(F(1.0)).unwrap(), F(0.5));
    assert_eq!(schedule.step(F(1.0)).unwrap(), F(0.5));
    assert_eq!(schedule.cooldown_counter(), 0);
    assert_eq!(schedule.step(F(1.0)).unwrap(), F(0.25));
}

#[test]
fn plateau_stops_at_the_smallest_learning_rate() {
    let config = ReduceLrOnPlateauConfig {
        patience: 0,
        min_lr: F(0.4),
        factor: F(0.5),
        ..ReduceLrOnPlateauConfig::<F>::default()
    };
    let mut schedule = ReduceLrOnPlateau::new(F(1.0), config).unwrap();
    for _ in 0..5 {
        schedule.step(F(1.0)).unwrap();
    }
    assert_eq!(schedule.current_lr(), F(0.4));
}

#[test]
fn dictionaries_keep_the_last_value_of_a_name() {
    let mut dict = StateDict::new();
    assert!(dict.is_empty());
    dict.insert("a".to_string(), t(vec![1.0], &[1]));
    dict.insert("b".to_string(), t(vec![2.0], &[1]));
    dict.insert("a".to_string(), t(vec![3.0], &[1]));
    assert_eq!(dict.len(), 2);
    assert_eq!(at(dict.get("a").unwrap(), &[0]), 3.0);
    assert_eq!(dict.keys(), vec!["a".to_string(), "b".to_string()]);
    assert!(dict.get("c").is_none());
    assert_eq!(dict.clone().len(), 2);
}

#[test]
fn refused_groups_are_named() {
    let text = |groups: Vec<ParamGroup<F>>| match resolve_slot_hparams(&groups, 3, F(0.1), F(0.2), "Test") {
        Err(AutodiffError::InvalidArgument(text)) => text,
        _ => String::new(),
    };
    let good = || ParamGroup::new(vec![2], F(0.1), F(0.0));
    assert_eq!(
        text(vec![good(), ParamGroup::new(vec![], F(0.1), F(0.0))]),
        "Test::step_with_groups: param_groups[1].params is empty",
    );
    assert_eq!(
        text(vec![ParamGroup::new(vec![0], F(-0.1), F(0.0))]),
        "Test::step_with_groups: param_groups[0].lr must be finite and >= 0.0, got -0.1",
    );
    assert_eq!(
        text(vec![ParamGroup::new(vec![0], F(0.1), F(f32::NAN))]),
        "Test::step_with_groups: param_groups[0].weight_decay must be finite and >= 0.0, got NaN",
    );
    assert_eq!(
        text(vec![good(), ParamGroup::new(vec![3], F(0.1), F(0.0))]),
        "Test::step_with_groups: param_groups[1] references slot index 3, but only 3 slot(s) were passed to step_with_groups",
    );
    assert_eq!(
        text(vec![good(), ParamGroup::new(vec![0], F(0.1), F(0.0)), good()]),
        "Test::step_with_groups: slot index 2 appears in both param_groups[0] and param_groups[2] (a slot may belong to at most one group)",
    );
    assert_eq!(
        text(vec![ParamGroup::new(vec![1, 1], F(0.1), F(0.0))]),
        "Test::step_with_groups: slot index 1 appears in both param_groups[0] and param_groups[0] (a slot may belong to at most one group)",
    );
}

#[test]
fn keys_that_are_wrong_are_listed_in_order() {
    let (param, grad) = pair();
    let mut a = Adam::new(AdamConfig::<F>::default()).unwrap();
    a.step(&[(&param, &grad)]).unwrap();
    let text = |result: Result<(), AutodiffError>| match result {
        Err(AutodiffError::InvalidArgument(text)) => text,
        _ => String::new(),
    };
    let mut extra = a.state_dict().unwrap();
    extra.insert("state.0.w".to_string(), t(vec![1.0], &[1]));
    extra.insert("state.00.m".to_string(), t(vec![1.0], &[1]));
    assert_eq!(
        text(a.load_state_dict(extra)),
        "OptimizerStateDict::load_state_dict（kind=`adam`）: unexpected keys: [\"state.0.w\", \"state.00.m\"]",
    );
    let mut few = StateDict::new();
    few.insert(NUM_SLOTS_KEY.to_string(), encode_u16x4_tensor(0));
    assert_eq!(
        text(a.load_state_dict(few)),
        "OptimizerStateDict::load_state_dict（kind=`adam`）: missing keys: [\"__optimizer__.adam\", \"beta1_pow_t.f64_u16x4\", \"beta2_pow_t.f64_u16x4\", \"step_count.u64_u16x4\"]",
    );
}

#[test]
fn adam_and_adamw_agree_without_decay() {
    let (param, grad) = pair();
    let mut adam = Adam::new(AdamConfig::<F>::default()).unwrap();
    let config = AdamWConfig { weight_decay: F(0.0), ..AdamWConfig::<F>::default() };
    let mut adamw = AdamW::new(config).unwrap();
    let mut a = param.duplicate();
    let mut b = param.duplicate();
    for _ in 0..5 {
        a = adam.step(&[(&a, &grad)]).unwrap().remove(0);
        b = adamw.step(&[(&b, &grad)]).unwrap().remove(0);
    }
    assert_eq!(dense(&a), dense(&b));
}

#[test]
fn keys_of_slots_are_distinct() {
    assert_eq!(slot_key(0, "m"), "state.0.m");
    assert_eq!(slot_key(120, "exp_avg"), "state.120.exp_avg");
    assert_ne!(slot_key(1, "1.m"), slot_key(11, "m"));
    assert_eq!(marker_key("adam"), "__optimizer__.adam");
}

#[test]
fn step_counts_do_not_overflow() {
    let (param, grad) = pair();
    let mut a = Adam::new(AdamConfig::<F>::default()).unwrap();
    let mut state = a.state_dict().unwrap();
    state.insert(STEP_COUNT_KEY.to_string(), encode_u16x4_tensor(u64::MAX - 1));
    a.load_state_dict(state).unwrap();
    assert_eq!(a.step_count(), u64::MAX - 1);
    a.step(&[(&param, &grad)]).unwrap();
    assert_eq!(a.step_count(), u64::MAX);
    assert!(matches!(a.step(&[(&param, &grad)]), Err(AutodiffError::InvalidArgument(_))));
    assert_eq!(a.step_count(), u64::MAX);
}

#[test]
fn saved_states_resume_after_any_number_of_steps() {
    let (param, grad) = pair();
    for steps in [0, 1, 7, 400] {
        let mut a = RAdam::new(RAdamConfig::<F>::default()).unwrap();
        let mut c = NAdam::new(NAdamConfig::<F>::default()).unwrap();
        for _ in 0..steps {
            a.step(&[(&param, &grad)]).unwrap();
            c.step(&[(&param, &grad)]).unwrap();
        }
        let mut b = RAdam::new(*a.config()).unwrap();
        b.load_state_dict(a.state_dict().unwrap()).unwrap();
        let mut d = NAdam::new(*c.config()).unwrap();
        d.load_state_dict(c.state_dict().unwrap()).unwrap();
        assert_eq!(a.step_count(), b.step_count());
        assert_eq!(c.step_count(), d.step_count());
        for _ in 0..3 {
            let x = a.step(&[(&param, &grad)]).unwrap();
            let y = b.step(&[(&param, &grad)]).unwrap();
            assert_eq!(dense(&x[0]), dense(&y[0]));
            let x = c.step(&[(&param, &grad)]).unwrap();
            let y = d.step(&[(&param, &grad)]).unwrap();
            assert_eq!(dense(&x[0]), dense(&y[0]));
        }
    }
}

#[test]
fn state_without_room_for_a_step_is_refused() {
    let (param, grad) = pair();
    let mut a = Adam::new(AdamConfig::<F>::default()).unwrap();
    let mut state = a.state_dict().unwrap();
    state.insert(STEP_COUNT_KEY.to_string(), encode_u16x4_tensor(u64::MAX - 1));
    a.load_state_dict(state).unwrap();
    a.step(&[(&param, &grad)]).unwrap();
    let mut b = Adam::new(AdamConfig::<F>::default()).unwrap();
    assert!(b.load_state_dict(a.state_dict().unwrap()).is_err());
    assert_eq!(b.step_count(), 0);
}

#[test]
fn learning_rate_on_a_plateau_stays_within_its_bounds() {
    let config = ReduceLrOnPlateauConfig {
        factor: F(0.5),
        patience: 2,
        cooldown: 3,
        min_lr: F(0.02),
        ..ReduceLrOnPlateauConfig::<F>::default()
    };
    let mut schedule = ReduceLrOnPlateau::new(F(0.1), config).unwrap();
    let mut before = F(0.1);
    for i in 0..60 {
        let metric = if i % 17 == 0 { F(-(i as f32)) } else { F(1.0) };
        let lr = schedule.step(metric).unwrap();
        assert_eq!(lr, schedule.current_lr());
        assert!(0.02 <= lr.0 && lr.0 <= before.0);
        assert!(schedule.num_bad_epochs() <= 2);
        assert!(schedule.cooldown_counter() <= 3);
        before = lr;
    }
    assert_eq!(before, F(0.02));
}

#[test]
fn metric_that_is_not_finite_changes_nothing() {
    let config = ReduceLrOnPlateauConfig::<F>::default();
    let mut schedule = ReduceLrOnPlateau::new(F(0.1), config).unwrap();
    schedule.step(F(1.0)).unwrap();
    schedule.step(F(2.0)).unwrap();
    for metric in [f32::NAN, f32::INFINITY, f32::NEG_INFINITY] {
        assert!(matches!(schedule.step(F(metric)), Err(AutodiffError::InvalidArgument(_))));
        assert_eq!(schedule.current_lr(), F(0.1));
        assert_eq!(schedule.best(), F(1.0));
        assert_eq!(schedule.num_bad_epochs(), 1);
        assert_eq!(schedule.cooldown_counter(), 0);
    }
}

#[test]
fn layer_moves_alike_among_other_layers() {
    let (param, grad) = pair();
    let other = t(vec![30.0, -40.0], &[2]);
    let slope = t(vec![5.0, 0.25], &[2]);
    let config = LambConfig { weight_decay: F(0.01), ..LambConfig::<F>::default() };
    let mut alone = Lamb::new(config).unwrap();
    let mut among = Lamb::new(config).unwrap();
    let mut a = param.duplicate();
    let mut b = param.duplicate();
    let mut c = other.duplicate();
    for _ in 0..4 {
        a = alone.step(&[(&a, &grad)]).unwrap().remove(0);
        let mut both = among.step(&[(&c, &slope), (&b, &grad)]).unwrap();
        b = both.remove(1);
        c = both.remove(0);
        assert_eq!(dense(&a), dense(&b));
    }
}

fn reason<T>(result: Result<T, AutodiffError>) -> String {
    match result {
        Err(AutodiffError::InvalidArgument(text)) => text,
        _ => String::new(),
    }
}

#[test]
fn refused_entries_are_told() {
    let front = "OptimizerStateDict::load_state_dict: ";
    assert_eq!(
        reason(decode_bits_u16x4("k", &[F(0.0); 3])),
        format!("{front}`k` must have exactly 4 elements (u16x4 encoding), got 3"),
    );
    assert_eq!(
        reason(decode_bits_u16x4("k", &[F(1.0), F(2.0), F(0.5), F(-1.0)])),
        format!("{front}`k` word 2 must be a finite integer in [0.0, 65535.0], got 0.5"),
    );
    assert_eq!(
        reason(decode_u16x4_tensor("k", &t(vec![0.0; 4], &[2, 2]))),
        format!("{front}`k` must have shape [4], got [2, 2]"),
    );
    assert_eq!(
        reason(validate_pow_t_range("k", D(1.5))),
        format!("{front}`k` must be finite and in [0.0, 1.0], got 1.5"),
    );
    assert_eq!(
        reason(validate_mu_product_range("k", F(-0.25))),
        format!("{front}`k` must be finite and in [0.0, 1.0], got -0.25"),
    );
    assert_eq!(
        reason(validate_marker("adam", &t(vec![2.0], &[1]))),
        format!("{front}`__optimizer__.adam` must equal 1 (format version marker for optimizer kind `adam`; a mismatch usually means a state_dict from a different optimizer kind was passed), got 2"),
    );
    assert_eq!(
        reason(validate_marker("adam", &t(vec![1.0, 1.0], &[1, 2]))),
        format!("{front}`__optimizer__.adam` must have shape [1], got [1, 2]"),
    );
}

#[test]
fn refused_states_are_told() {
    let front = |kind: &str| format!("OptimizerStateDict::load_state_dict（kind=`{kind}`）: ");
    assert_eq!(
        reason(validate_step_count_headroom("nadam", u64::MAX - 1, true)),
        front("nadam") + "`step_count.u64_u16x4` value 18446744073709551614 is too large; the next `step()` call would overflow the internal `step_count` counter (maximum safely loadable value is 18446744073709551613)",
    );
    let mut adam = Adam::new(AdamConfig::<F>::default()).unwrap();
    assert_eq!(
        reason(adam.load_state_dict(StateDict::new())),
        front("adam") + "missing key: `num_slots.u64_u16x4`",
    );
    let mut many = StateDict::new();
    many.insert(NUM_SLOTS_KEY.to_string(), encode_u16x4_tensor(u64::MAX));
    assert_eq!(
        reason(adam.load_state_dict(many)),
        front("adam") + "`num_slots.u64_u16x4` value 18446744073709551615 is too large (slot key count overflow)",
    );
    let mut few = StateDict::new();
    few.insert(NUM_SLOTS_KEY.to_string(), encode_u16x4_tensor(3));
    assert_eq!(
        reason(adam.load_state_dict(few)),
        front("adam") + "`num_slots.u64_u16x4` value 3 is inconsistent with the number of provided keys (1); a valid state_dict must contain at least 6 slot buffer keys",
    );
    let mut nadam = NAdam::new(NAdamConfig::<F>::default()).unwrap();
    let mut product = nadam.state_dict().unwrap();
    product.insert(MU_PRODUCT_KEY.to_string(), t(vec![0.5, 0.5], &[2]));
    assert_eq!(
        reason(nadam.load_state_dict(product)),
        front("nadam") + "`mu_product` must have shape [1], got [2]",
    );
}

#[test]
fn buffers_of_different_shapes_are_told() {
    let p = t(vec![1.0, 2.0], &[2]);
    let mut adam = Adam::new(AdamConfig::<F>::default()).unwrap();
    adam.step(&[(&p, &p), (&p, &p)]).unwrap();
    let mut state = adam.state_dict().unwrap();
    state.insert("state.1.v".to_string(), t(vec![1.0, 2.0], &[2, 1]));
    assert_eq!(
        reason(adam.load_state_dict(state)),
        "OptimizerStateDict::load_state_dict（kind=`adam`）: slot 1 has mismatched buffer shapes: `state.1.v` has shape [2, 1], expected [2] (from an earlier buffer in the same slot)",
    );
}

#[test]
fn odd_keys_are_escaped_in_a_list() {
    let mut adam = Adam::new(AdamConfig::<F>::default()).unwrap();
    let mut state = adam.state_dict().unwrap();
    state.insert("a\"b\n".to_string(), t(vec![1.0], &[1]));
    assert_eq!(
        reason(adam.load_state_dict(state)),
        format!("OptimizerStateDict::load_state_dict（kind=`adam`）: unexpected keys: {:?}", ["a\"b\n"]),
    );
}
