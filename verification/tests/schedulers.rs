use autodiff_nn::error::AutodiffError;
use autodiff_nn::number::{Double, Real, Single};
use autodiff_nn::optim::lr_scheduler::{
    ConstantLr, CosineAnnealingLr, CosineAnnealingWarmRestarts, CyclicLr, ExponentialLr, LambdaLr,
    LinearWarmupLr, LrScheduler, MultiStepLr, OneCycleAnneal, OneCycleLr, OneCycleLrConfig,
    SequentialLr, StepLr,
};

#[derive(Clone, Copy, PartialEq, Debug)]
struct F(f32);
#[derive(Clone, Copy, PartialEq, Debug)]
struct D(f64);

impl Real for F {
    fn literal(mantissa: i64, exponent: i32) -> F {
        F(format!("{}e{}", mantissa, exponent).parse().unwrap())
    }
    fn one_equals_one() {}
    fn extremes(self, _other: F) {}
    fn order(self, _other: F, _third: F) {}
    fn signs(self, _other: F) {}
    fn midpoint(self, _low: F, _high: F) {}
    fn unit_interval(self, _other: F) {}
    fn decimals(_low: i64, _high: i64, _places: u32) {}
    fn neutral(self, _other: F) {}
    fn fused_operands(self, _factor: F, _addend: F) {}
    fn infinity() -> F { F(f32::INFINITY) }
    fn nan() -> F { F(f32::NAN) }
    fn add(self, o: F) -> F { F(self.0 + o.0) }
    fn sub(self, o: F) -> F { F(self.0 - o.0) }
    fn mul(self, o: F) -> F { F(self.0 * o.0) }
    fn div(self, o: F) -> F { F(self.0 / o.0) }
    fn neg(self) -> F { F(-self.0) }
    fn mul_add(self, a: F, b: F) -> F { F(self.0.mul_add(a.0, b.0)) }
    fn sqrt(self) -> F { F(self.0.sqrt()) }
    fn abs(self) -> F { F(self.0.abs()) }
    fn max(self, o: F) -> F { F(self.0.max(o.0)) }
    fn min(self, o: F) -> F { F(self.0.min(o.0)) }
    fn powi(self, n: i32) -> F { F(self.0.powi(n)) }
    fn is_finite(self) -> bool { self.0.is_finite() }
    fn is_nan(self) -> bool { self.0.is_nan() }
    fn lt(self, o: F) -> bool { self.0 < o.0 }
    fn le(self, o: F) -> bool { self.0 <= o.0 }
    fn eq(self, o: F) -> bool { self.0 == o.0 }
    fn show(self) -> String { format!("{}", self.0) }
}
impl Real for D {
    fn literal(mantissa: i64, exponent: i32) -> D {
        D(format!("{}e{}", mantissa, exponent).parse().unwrap())
    }
    fn one_equals_one() {}
    fn extremes(self, _other: D) {}
    fn order(self, _other: D, _third: D) {}
    fn signs(self, _other: D) {}
    fn midpoint(self, _low: D, _high: D) {}
    fn unit_interval(self, _other: D) {}
    fn decimals(_low: i64, _high: i64, _places: u32) {}
    fn neutral(self, _other: D) {}
    fn fused_operands(self, _factor: D, _addend: D) {}
    fn infinity() -> D { D(f64::INFINITY) }
    fn nan() -> D { D(f64::NAN) }
    fn add(self, o: D) -> D { D(self.0 + o.0) }
    fn sub(self, o: D) -> D { D(self.0 - o.0) }
    fn mul(self, o: D) -> D { D(self.0 * o.0) }
    fn div(self, o: D) -> D { D(self.0 / o.0) }
    fn neg(self) -> D { D(-self.0) }
    fn mul_add(self, a: D, b: D) -> D { D(self.0.mul_add(a.0, b.0)) }
    fn sqrt(self) -> D { D(self.0.sqrt()) }
    fn abs(self) -> D { D(self.0.abs()) }
    fn max(self, o: D) -> D { D(self.0.max(o.0)) }
    fn min(self, o: D) -> D { D(self.0.min(o.0)) }
    fn powi(self, n: i32) -> D { D(self.0.powi(n)) }
    fn is_finite(self) -> bool { self.0.is_finite() }
    fn is_nan(self) -> bool { self.0.is_nan() }
    fn lt(self, o: D) -> bool { self.0 < o.0 }
    fn le(self, o: D) -> bool { self.0 <= o.0 }
    fn eq(self, o: D) -> bool { self.0 == o.0 }
    fn show(self) -> String { format!("{}", self.0) }
}
impl Double for D {
    fn of_bits_inverts_bits(self) {}
    fn integers(_n: u128) {}
    fn powers(self, _exponent: D) {}
    fn from_integer(n: u128) -> D { D(n as f64) }
    fn powf(self, e: D) -> D { D(self.0.powf(e.0)) }
    fn cos(self) -> D { D(self.0.cos()) }
    fn sin(self) -> D { D(self.0.sin()) }
    fn to_bits(self) -> u64 { self.0.to_bits() }
    fn from_bits(bits: u64) -> D { D(f64::from_bits(bits)) }
}
impl Single for F {
    type Wide = D;
    fn words_are_exact(_word: u16) {}
    fn precisions(self, _wide: D) {}
    fn binary_scaling(self, _scale: F) {}
    fn widen(self) -> D { D(self.0 as f64) }
    fn round(wide: D) -> F { F(wide.0 as f32) }
    fn from_word(word: u16) -> F { F(word as f32) }
    fn to_word(self) -> u16 { self.0 as u16 }
    fn is_integral(self) -> bool { self.0.fract() == 0.0 }
    fn is_subnormal(self) -> bool { self.0.is_subnormal() }
}


fn refused<T>(result: Result<T, AutodiffError>, reason: &str) -> bool {
    match result {
        Err(AutodiffError::InvalidArgument(text)) => text == reason,
        _ => false,
    }
}

fn close(a: F, b: f32) -> bool {
    (a.0 - b).abs() <= 1e-6 * b.abs().max(1.0)
}

#[test]
fn constant_rate_never_changes() {
    let schedule = ConstantLr::new(F(0.1)).unwrap();
    assert_eq!(schedule.lr_at(0), F(0.1));
    assert_eq!(schedule.lr_at(usize::MAX), F(0.1));
    assert!(refused(
        ConstantLr::new(F(0.0)),
        "base_lr は有限かつ正の値でなければならない: 0",
    ));
    assert!(ConstantLr::new(F(f32::NAN)).is_err());
    assert!(ConstantLr::new(F(f32::INFINITY)).is_err());
}

#[test]
fn stepped_rate_falls_after_each_stretch() {
    let schedule = StepLr::new(F(1.0), 3, F(0.5)).unwrap();
    let rates: Vec<f32> = (0..9).map(|i| schedule.lr_at(i).0).collect();
    assert_eq!(rates, vec![1.0, 1.0, 1.0, 0.5, 0.5, 0.5, 0.25, 0.25, 0.25]);
    assert!(refused(
        StepLr::new(F(-1.0), 3, F(0.5)),
        "base_lr は有限かつ正の値でなければならない: -1",
    ));
    assert!(refused(StepLr::new(F(1.0), 0, F(0.5)), "step_size は 1 以上でなければならない"));
    assert!(refused(
        StepLr::new(F(1.0), 3, F(0.0)),
        "gamma は有限かつ正の値でなければならない: 0",
    ));
}

#[test]
fn cosine_falls_from_base_to_minimum_and_rises_again() {
    let schedule = CosineAnnealingLr::new(F(1.0), 10, F(0.2)).unwrap();
    assert_eq!(schedule.lr_at(0), F(1.0));
    assert!(close(schedule.lr_at(5), 0.6));
    assert!(close(schedule.lr_at(10), 0.2));
    assert!(close(schedule.lr_at(20), 1.0));
    assert!(schedule.lr_at(3).0 > schedule.lr_at(4).0);
    assert!(refused(
        CosineAnnealingLr::new(F(f32::NAN), 1, F(0.0)),
        "base_lr は有限かつ正の値でなければならない: NaN",
    ));
    assert!(refused(CosineAnnealingLr::new(F(1.0), 0, F(0.2)), "t_max は 1 以上でなければならない"));
    assert!(refused(
        CosineAnnealingLr::new(F(1.0), 10, F(1.5)),
        "eta_min は有限かつ 0 以上 base_lr 以下でなければならない: eta_min=1.5 base_lr=1",
    ));
    assert!(CosineAnnealingLr::new(F(1.0), 10, F(-0.1)).is_err());
    assert!(CosineAnnealingLr::new(F(1.0), 10, F(1.0)).is_ok());
}

#[test]
fn exponential_rate_falls_at_each_step() {
    let schedule = ExponentialLr::new(F(1.0), F(0.5)).unwrap();
    assert_eq!(schedule.lr_at(0), F(1.0));
    assert_eq!(schedule.lr_at(1), F(0.5));
    assert_eq!(schedule.lr_at(10), F(0.0009765625));
    assert!(ExponentialLr::new(F(1.0), F(f32::INFINITY)).is_err());
    assert!(ExponentialLr::new(F(0.0), F(0.5)).is_err());
}

#[test]
fn warmup_grows_in_a_straight_line_and_ends() {
    let schedule = LinearWarmupLr::new(F(2.0), 4, F(0.5)).unwrap();
    let rates: Vec<f32> = (0..7).map(|i| schedule.lr_at(i).0).collect();
    assert_eq!(rates, vec![1.0, 1.25, 1.5, 1.75, 2.0, 2.0, 2.0]);
    assert!(LinearWarmupLr::new(F(0.0), 4, F(0.5)).is_err());
    assert!(refused(LinearWarmupLr::new(F(2.0), 0, F(0.5)), "warmup_steps は 1 以上でなければならない"));
    assert!(refused(
        LinearWarmupLr::new(F(2.0), 4, F(1.5)),
        "start_factor は有限かつ 0 より大きく 1 以下でなければならない: 1.5",
    ));
    assert!(LinearWarmupLr::new(F(2.0), 4, F(0.0)).is_err());
    assert!(LinearWarmupLr::new(F(2.0), 4, F(1.0)).is_ok());
}

fn linear_cycle() -> OneCycleLrConfig<F> {
    OneCycleLrConfig {
        max_lr: F(1.0),
        total_steps: 11,
        pct_start: F(0.5),
        anneal_strategy: OneCycleAnneal::Linear,
        div_factor: F(4.0),
        final_div_factor: F(2.0),
        three_phase: false,
    }
}

#[test]
fn one_cycle_has_default_settings() {
    let config = OneCycleLrConfig::new(F(0.1), 100);
    assert_eq!(config.max_lr, F(0.1));
    assert_eq!(config.total_steps, 100);
    assert_eq!(config.pct_start, F(0.3));
    assert!(matches!(config.anneal_strategy, OneCycleAnneal::Cos));
    assert_eq!(config.div_factor, F(25.0));
    assert_eq!(config.final_div_factor, F(1e4));
    assert!(!config.three_phase);
}

#[test]
fn one_cycle_rises_and_falls() {
    let schedule = OneCycleLr::new(linear_cycle()).unwrap();
    assert_eq!(schedule.lr_at(0), F(0.25));
    assert!(close(schedule.lr_at(1), 0.25 + 0.75 / 4.5));
    assert!(close(schedule.lr_at(5), 1.0 - 0.875 * 0.5 / 5.5));
    assert_eq!(schedule.lr_at(10), F(0.125));
    assert_eq!(schedule.lr_at(11), F(0.125));
    assert_eq!(schedule.lr_at(usize::MAX), F(0.125));
}

#[test]
fn one_cycle_follows_a_cosine() {
    let config = OneCycleLrConfig { anneal_strategy: OneCycleAnneal::Cos, ..linear_cycle() };
    let schedule = OneCycleLr::new(config).unwrap();
    assert_eq!(schedule.lr_at(0), F(0.25));
    let p = 2.0_f64 / 4.5;
    let expected = 0.25 + 0.75 * (1.0 - (std::f64::consts::PI * p).cos()) / 2.0;
    assert!(close(schedule.lr_at(2), expected as f32));
    assert_eq!(schedule.lr_at(10), F(0.125));
}

#[test]
fn one_cycle_may_have_three_phases() {
    let config = OneCycleLrConfig {
        total_steps: 21,
        pct_start: F(0.25),
        three_phase: true,
        ..linear_cycle()
    };
    let schedule = OneCycleLr::new(config).unwrap();
    assert_eq!(schedule.lr_at(0), F(0.25));
    assert!(close(schedule.lr_at(4), 0.25 + 0.75 * 4.0 / 4.25));
    assert!(close(schedule.lr_at(8), 1.0 - 0.75 * 3.75 / 4.25));
    assert_eq!(schedule.lr_at(20), F(0.125));
}

#[test]
fn one_cycle_refuses_bad_settings() {
    let base = linear_cycle;
    assert!(refused(
        OneCycleLr::new(OneCycleLrConfig { max_lr: F(0.0), ..base() }),
        "max_lr は有限かつ正の値でなければならない: 0",
    ));
    assert!(refused(
        OneCycleLr::new(OneCycleLrConfig { total_steps: 0, ..base() }),
        "total_steps は 1 以上でなければならない",
    ));
    assert!(refused(
        OneCycleLr::new(OneCycleLrConfig { pct_start: F(1.0), ..base() }),
        "pct_start は有限かつ 0 より大きく 1 未満でなければならない: 1",
    ));
    assert!(refused(
        OneCycleLr::new(OneCycleLrConfig { div_factor: F(-1.0), ..base() }),
        "div_factor は有限かつ正の値でなければならない: -1",
    ));
    assert!(refused(
        OneCycleLr::new(OneCycleLrConfig { final_div_factor: F(0.0), ..base() }),
        "final_div_factor は有限かつ正の値でなければならない: 0",
    ));
    assert!(refused(
        OneCycleLr::new(OneCycleLrConfig { max_lr: F(1e-30), div_factor: F(1e30), ..base() }),
        &format!(
            "initial_lr(=max_lr/div_factor={}) が f32 として表現不能（変換結果 0）: max_lr={} div_factor={}",
            1e-30_f32 as f64 / 1e30_f32 as f64,
            1e-30_f32,
            1e30_f32,
        ),
    ));
    assert!(refused(
        OneCycleLr::new(OneCycleLrConfig { max_lr: F(1e-30), final_div_factor: F(1e30), ..base() }),
        &format!(
            "min_lr(=initial_lr/final_div_factor={}) が f32 として表現不能（変換結果 0）: max_lr={} div_factor={} final_div_factor={}",
            (1e-30_f32 as f64 / base().div_factor.0 as f64) / 1e30_f32 as f64,
            1e-30_f32,
            base().div_factor.0,
            1e30_f32,
        ),
    ));
    assert!(OneCycleLr::new(OneCycleLrConfig { total_steps: 1, ..base() }).is_err());
    assert!(refused(
        OneCycleLr::new(OneCycleLrConfig { total_steps: 2, ..base() }),
        "pct_start/total_steps/three_phase の組合せによりフェーズ境界が 単調増加でない（phase[0].end_step=0 <= 直前の境界 0）: pct_start=0.5 total_steps=2 three_phase=false",
    ));
    assert!(OneCycleLr::new(OneCycleLrConfig { three_phase: true, ..base() }).is_ok());
}

#[test]
fn milestones_count_in_any_order() {
    let schedule = MultiStepLr::new(F(1.0), &[6, 2, 6], F(0.5)).unwrap();
    let rates: Vec<f32> = (0..8).map(|i| schedule.lr_at(i).0).collect();
    assert_eq!(rates, vec![1.0, 1.0, 0.5, 0.5, 0.5, 0.5, 0.125, 0.125]);
    let plain = MultiStepLr::new(F(1.0), &[], F(0.5)).unwrap();
    assert_eq!(plain.lr_at(100), F(1.0));
    assert!(MultiStepLr::new(F(0.0), &[], F(0.5)).is_err());
    assert!(MultiStepLr::new(F(1.0), &[], F(f32::NAN)).is_err());
}

#[test]
fn restarts_come_after_growing_cycles() {
    let schedule = CosineAnnealingWarmRestarts::new(F(1.0), 2, 2, F(0.0)).unwrap();
    let positions: Vec<(u128, u128)> = (0..8).map(|i| schedule.cycle_position(i)).collect();
    assert_eq!(
        positions,
        vec![(0, 2), (1, 2), (0, 4), (1, 4), (2, 4), (3, 4), (0, 8), (1, 8)],
    );
    assert_eq!(schedule.lr_at(0), F(1.0));
    assert!(close(schedule.lr_at(1), 0.5));
    assert_eq!(schedule.lr_at(2), F(1.0));
    assert!(close(schedule.lr_at(4), 0.5));
    let equal = CosineAnnealingWarmRestarts::new(F(1.0), 5, 1, F(0.0)).unwrap();
    assert_eq!(equal.cycle_position(usize::MAX), ((usize::MAX % 5) as u128, 5));
    let large = CosineAnnealingWarmRestarts::new(F(1.0), usize::MAX, usize::MAX, F(0.0)).unwrap();
    let square = (usize::MAX as u128) * (usize::MAX as u128);
    assert_eq!(large.cycle_position(usize::MAX), (0, square));
    assert_eq!(large.cycle_position(7), (7, usize::MAX as u128));
}

#[test]
fn restarts_refuse_bad_settings() {
    assert!(CosineAnnealingWarmRestarts::new(F(0.0), 2, 2, F(0.0)).is_err());
    assert!(refused(
        CosineAnnealingWarmRestarts::new(F(1.0), 0, 2, F(0.0)),
        "t_0 は 1 以上でなければならない",
    ));
    assert!(refused(
        CosineAnnealingWarmRestarts::new(F(1.0), 2, 0, F(0.0)),
        "t_mult は 1 以上でなければならない",
    ));
    assert!(CosineAnnealingWarmRestarts::new(F(1.0), 2, 2, F(2.0)).is_err());
}

#[test]
fn triangle_wave_repeats() {
    let schedule = CyclicLr::new(F(1.0), F(3.0), 2, Some(4)).unwrap();
    let rates: Vec<f32> = (0..7).map(|i| schedule.lr_at(i).0).collect();
    assert_eq!(rates, vec![1.0, 2.0, 3.0, 2.5, 2.0, 1.5, 1.0]);
    assert_eq!(schedule.lr_at(3), schedule.lr_at(9));
    let even = CyclicLr::new(F(1.0), F(3.0), 2, None).unwrap();
    assert_eq!(even.lr_at(3), F(2.0));
    assert!(CyclicLr::new(F(0.0), F(3.0), 2, None).is_err());
    assert!(refused(
        CyclicLr::new(F(1.0), F(0.5), 2, None),
        "max_lr は有限かつ base_lr 以上でなければならない: max_lr=0.5 base_lr=1",
    ));
    assert!(refused(CyclicLr::new(F(1.0), F(3.0), 0, None), "step_size_up は 1 以上でなければならない"));
    assert!(refused(
        CyclicLr::new(F(1.0), F(3.0), 1, Some(0)),
        "step_size_down は 1 以上でなければならない（下降フェーズが存在しない退化設定）",
    ));
    assert!(refused(
        CyclicLr::new(F(1.0), F(3.0), usize::MAX, Some(1)),
        "step_size_up + step_size_down が usize で overflow する: step_size_up=18446744073709551615 step_size_down=1",
    ));
}

#[test]
fn function_of_the_step_scales_the_rate() {
    let schedule = LambdaLr::new(F(0.5), |step: usize| D(1.0 / (1.0 + step as f64))).unwrap();
    assert_eq!(schedule.lr_at(0), F(0.5));
    assert_eq!(schedule.lr_at(3), F(0.125));
    assert!(LambdaLr::new(F(-0.5), |_step: usize| D(1.0)).is_err());
}

#[test]
fn schedules_follow_one_another() {
    let warmup: Box<dyn LrScheduler<F>> = Box::new(LinearWarmupLr::new(F(1.0), 2, F(0.5)).unwrap());
    let decay: Box<dyn LrScheduler<F>> = Box::new(ExponentialLr::new(F(1.0), F(0.5)).unwrap());
    let schedule = SequentialLr::new(vec![warmup, decay], vec![2]).unwrap();
    let rates: Vec<f32> = (0..5).map(|i| schedule.lr_at(i).0).collect();
    assert_eq!(rates, vec![0.5, 0.75, 1.0, 0.5, 0.25]);
}

#[test]
fn sequences_are_checked() {
    let flat = || -> Box<dyn LrScheduler<F>> { Box::new(ConstantLr::new(F(1.0)).unwrap()) };
    assert!(refused(
        SequentialLr::<F>::new(Vec::new(), Vec::new()),
        "schedulers は 1 個以上でなければならない",
    ));
    assert!(refused(
        SequentialLr::new(vec![flat()], vec![1]),
        "milestones.len() + 1 は schedulers.len() と一致しなければならない: milestones.len()=1 schedulers.len()=1",
    ));
    assert!(refused(
        SequentialLr::new(vec![flat(), flat()], vec![0]),
        "milestones の先頭は 1 以上でなければならない（先頭 0 は最初の段が長さ 0 になる退化設定）",
    ));
    assert!(refused(
        SequentialLr::new(vec![flat(), flat(), flat()], vec![3, 3]),
        "milestones は狭義単調増加でなければならない: [3, 3]",
    ));
    assert!(SequentialLr::new(vec![flat()], Vec::new()).is_ok());
}

#[test]
fn stepped_rate_follows_its_formula_at_very_late_steps() {
    let late = 1usize << 32;
    assert_eq!(StepLr::new(F(1.0), 1, F(0.5)).unwrap().lr_at(late), F(0.0));
    assert_eq!(StepLr::new(F(1.0), 1, F(1.0)).unwrap().lr_at(late), F(1.0));
    assert_eq!(StepLr::new(F(1.0), 1, F(2.0)).unwrap().lr_at(late), F(f32::INFINITY));
    assert_eq!(StepLr::new(F(1.0), late, F(0.5)).unwrap().lr_at(late), F(0.5));
}
