//! Learning rates as functions of the step number.
//!
//! Positions in a schedule are found with integers. What is then computed with
//! numbers is computed in the wide precision and rounded once.
use crate::error::{
    AutodiffError, ErrorModel, invalid, refused, tell, tell_counts, tell_two, told, told_counts,
    told_two,
};
use crate::number::{
    Double, Real, Single, in_unit_range, is_non_negative, is_number, is_positive, non_negative, one,
    positive, zero,
};
use crate::text::{
    bracketed, bracketed_text, followed_by, followed_by_count, joined, numeral, truth, truth_text,
};
use crate::fixed::{ten_to};
use crate::optim::direction::{
    aligned_product, nothing_added, nothing_taken, number_has_a_side, zero_is_zero,
};
use vstd::prelude::*;

verus! {

/// A learning rate for each step.
pub trait LrScheduler<S: Single> {
    /// Whether `lr` is a learning rate that the schedule may give for `step`.
    spec fn allows(&self, step: usize, lr: S) -> bool;

    /// The learning rate for `step`, where the first step has number 0.
    fn lr_at(&self, step: usize) -> (r: S)
        ensures
            self.allows(step, r),
    ;
}

/// An integer in the wide precision.
pub open spec fn wide<S: Single>(n: int) -> S::Wide {
    <S::Wide as Double>::of_integer(n as u128)
}

fn widened<S: Single>(n: u128) -> (r: S::Wide)
    ensures
        r == wide::<S>(n as int),
{
    <S::Wide as Double>::from_integer(n)
}

/// The number pi in the wide precision.
pub open spec fn pi<S: Single>() -> S::Wide {
    <S::Wide as Real>::decimal(3141592653589793238, -18)
}

/// The same learning rate for every step.
pub struct ConstantLr<S: Single> {
    base_lr: S,
}

impl<S: Single> ConstantLr<S> {
    pub closed spec fn base_lr(&self) -> S {
        self.base_lr
    }

    pub fn new(base_lr: S) -> (r: Result<ConstantLr<S>, AutodiffError>)
        ensures
            match r {
                Ok(schedule) => positive(base_lr) && schedule.base_lr() == base_lr,
                Err(e) => !positive(base_lr) && e@ == told(
                    "base_lr は有限かつ正の値でなければならない: ",
                    base_lr,
                ),
            },
    {
        if !is_positive(base_lr) {
            return Err(tell("base_lr は有限かつ正の値でなければならない: ", base_lr));
        }
        Ok(ConstantLr { base_lr })
    }
}

impl<S: Single> LrScheduler<S> for ConstantLr<S> {
    open spec fn allows(&self, step: usize, lr: S) -> bool {
        lr == self.base_lr()
    }

    fn lr_at(&self, step: usize) -> (r: S) {
        self.base_lr
    }
}

/// A learning rate that is multiplied by `gamma` after every `step_size` steps.
pub struct StepLr<S: Single> {
    base_lr: S,
    step_size: usize,
    gamma: S,
}

impl<S: Single> StepLr<S> {
    pub closed spec fn base_lr(&self) -> S {
        self.base_lr
    }

    pub closed spec fn step_size(&self) -> usize {
        self.step_size
    }

    pub closed spec fn gamma(&self) -> S {
        self.gamma
    }

    #[verifier::type_invariant]
    spec fn wf(&self) -> bool {
        self.step_size > 0
    }

    /// Why a schedule is refused, if it is.
    pub open spec fn error(base_lr: S, step_size: usize, gamma: S) -> Option<ErrorModel> {
        if !positive(base_lr) {
            Some(told(
                    "base_lr は有限かつ正の値でなければならない: ",
                    base_lr,
                ))
        } else if step_size == 0 {
            Some(refused("step_size は 1 以上でなければならない"))
        } else if !positive(gamma) {
            Some(told("gamma は有限かつ正の値でなければならない: ", gamma))
        } else {
            None
        }
    }

    pub fn new(base_lr: S, step_size: usize, gamma: S) -> (r: Result<StepLr<S>, AutodiffError>)
        ensures
            match r {
                Ok(schedule) => {
                    &&& Self::error(base_lr, step_size, gamma) is None
                    &&& schedule.base_lr() == base_lr
                    &&& schedule.step_size() == step_size
                    &&& schedule.gamma() == gamma
                },
                Err(e) => Self::error(base_lr, step_size, gamma) == Some(e@),
            },
    {
        if !is_positive(base_lr) {
            return Err(tell("base_lr は有限かつ正の値でなければならない: ", base_lr));
        }
        if step_size == 0 {
            return Err(invalid("step_size は 1 以上でなければならない"));
        }
        if !is_positive(gamma) {
            return Err(tell("gamma は有限かつ正の値でなければならない: ", gamma));
        }
        Ok(StepLr { base_lr, step_size, gamma })
    }
}

/// The number of decays as an exponent: counts beyond the largest exponent are
/// cut off there.
pub open spec fn capped_exponent(decays: int) -> i32 {
    if decays > i32::MAX {
        i32::MAX
    } else {
        decays as i32
    }
}

impl<S: Single> LrScheduler<S> for StepLr<S> {
    open spec fn allows(&self, step: usize, lr: S) -> bool {
        lr == self.base_lr().times(
            self.gamma().powered(capped_exponent((step / self.step_size()) as int)),
        )
    }

    fn lr_at(&self, step: usize) -> (r: S) {
        proof {
            use_type_invariant(self);
        }
        let decays: usize = step / self.step_size;
        let exponent: i32 = if decays > 0x7fff_ffff {
            0x7fff_ffff
        } else {
            decays as i32
        };
        self.base_lr.mul(self.gamma.powi(exponent))
    }
}

/// The point of a cosine wave that falls from `base_lr` to `eta_min` while
/// `position` goes from 0 to `length`.
pub open spec fn annealed<S: Single>(base_lr: S, eta_min: S, position: int, length: int) -> S {
    let low = eta_min.widened();
    let two = <S::Wide as Real>::decimal(2, 0);
    let phase = pi::<S>().times(wide::<S>(position)).over(wide::<S>(length));
    S::rounded(
        low.plus(base_lr.widened().minus(low).times(phase.over(two).cosine().powered(2))),
    )
}

fn anneal<S: Single>(base_lr: S, eta_min: S, position: u128, length: u128) -> (r: S)
    ensures
        r == annealed(base_lr, eta_min, position as int, length as int),
{
    let low: S::Wide = eta_min.widen();
    let two: S::Wide = <S::Wide as Real>::literal(2, 0);
    let pi: S::Wide = <S::Wide as Real>::literal(3141592653589793238, -18);
    let phase: S::Wide = pi.mul(widened::<S>(position)).div(widened::<S>(length));
    let weight: S::Wide = phase.div(two).cos().powi(2);
    S::round(low.add(base_lr.widen().sub(low).mul(weight)))
}

/// Whether `eta_min` can be the lower end of a schedule that starts at `base_lr`.
pub open spec fn lower_end<S: Single>(base_lr: S, eta_min: S) -> bool {
    non_negative(eta_min) && eta_min.at_most(base_lr)
}

/// A cosine wave between `base_lr` and `eta_min` that reaches `eta_min` at step
/// `t_max` and `base_lr` again at twice that step.
pub struct CosineAnnealingLr<S: Single> {
    base_lr: S,
    t_max: usize,
    eta_min: S,
}

impl<S: Single> CosineAnnealingLr<S> {
    pub closed spec fn base_lr(&self) -> S {
        self.base_lr
    }

    pub closed spec fn t_max(&self) -> usize {
        self.t_max
    }

    pub closed spec fn eta_min(&self) -> S {
        self.eta_min
    }

    /// Why a schedule is refused, if it is.
    pub open spec fn error(base_lr: S, t_max: usize, eta_min: S) -> Option<ErrorModel> {
        if !positive(base_lr) {
            Some(told(
                    "base_lr は有限かつ正の値でなければならない: ",
                    base_lr,
                ))
        } else if t_max == 0 {
            Some(refused("t_max は 1 以上でなければならない"))
        } else if !lower_end(base_lr, eta_min) {
            Some(
                told_two(
                    "eta_min は有限かつ 0 以上 base_lr 以下でなければならない: eta_min=",
                    eta_min,
                    " base_lr=",
                    base_lr,
                    "",
                ),
            )
        } else {
            None
        }
    }

    pub fn new(base_lr: S, t_max: usize, eta_min: S) -> (r: Result<
        CosineAnnealingLr<S>,
        AutodiffError,
    >)
        ensures
            match r {
                Ok(schedule) => {
                    &&& Self::error(base_lr, t_max, eta_min) is None
                    &&& schedule.base_lr() == base_lr
                    &&& schedule.t_max() == t_max
                    &&& schedule.eta_min() == eta_min
                },
                Err(e) => Self::error(base_lr, t_max, eta_min) == Some(e@),
            },
    {
        if !is_positive(base_lr) {
            return Err(tell("base_lr は有限かつ正の値でなければならない: ", base_lr));
        }
        if t_max == 0 {
            return Err(invalid("t_max は 1 以上でなければならない"));
        }
        if !(is_non_negative(eta_min) && eta_min.le(base_lr)) {
            return Err(
                tell_two(
                    "eta_min は有限かつ 0 以上 base_lr 以下でなければならない: eta_min=",
                    eta_min,
                    " base_lr=",
                    base_lr,
                    "",
                ),
            );
        }
        Ok(CosineAnnealingLr { base_lr, t_max, eta_min })
    }
}

impl<S: Single> LrScheduler<S> for CosineAnnealingLr<S> {
    open spec fn allows(&self, step: usize, lr: S) -> bool {
        lr == annealed(self.base_lr(), self.eta_min(), step as int, self.t_max() as int)
    }

    fn lr_at(&self, step: usize) -> (r: S) {
        anneal(self.base_lr, self.eta_min, step as u128, self.t_max as u128)
    }
}

/// The learning rate `base_lr * gamma^exponent`.
pub open spec fn decayed_rate<S: Single>(base_lr: S, gamma: S, exponent: int) -> S {
    S::rounded(base_lr.widened().times(gamma.widened().raised(wide::<S>(exponent))))
}

fn decay_rate<S: Single>(base_lr: S, gamma: S, exponent: u128) -> (r: S)
    ensures
        r == decayed_rate(base_lr, gamma, exponent as int),
{
    S::round(base_lr.widen().mul(gamma.widen().powf(widened::<S>(exponent))))
}

/// A learning rate that is multiplied by `gamma` after every step.
pub struct ExponentialLr<S: Single> {
    base_lr: S,
    gamma: S,
}

impl<S: Single> ExponentialLr<S> {
    pub closed spec fn base_lr(&self) -> S {
        self.base_lr
    }

    pub closed spec fn gamma(&self) -> S {
        self.gamma
    }

    /// Why a schedule is refused, if it is.
    pub open spec fn error(base_lr: S, gamma: S) -> Option<ErrorModel> {
        if !positive(base_lr) {
            Some(told(
                    "base_lr は有限かつ正の値でなければならない: ",
                    base_lr,
                ))
        } else if !positive(gamma) {
            Some(told("gamma は有限かつ正の値でなければならない: ", gamma))
        } else {
            None
        }
    }

    pub fn new(base_lr: S, gamma: S) -> (r: Result<ExponentialLr<S>, AutodiffError>)
        ensures
            match r {
                Ok(schedule) => {
                    &&& Self::error(base_lr, gamma) is None
                    &&& schedule.base_lr() == base_lr
                    &&& schedule.gamma() == gamma
                },
                Err(e) => Self::error(base_lr, gamma) == Some(e@),
            },
    {
        if !is_positive(base_lr) {
            return Err(tell("base_lr は有限かつ正の値でなければならない: ", base_lr));
        }
        if !is_positive(gamma) {
            return Err(tell("gamma は有限かつ正の値でなければならない: ", gamma));
        }
        Ok(ExponentialLr { base_lr, gamma })
    }
}

impl<S: Single> LrScheduler<S> for ExponentialLr<S> {
    open spec fn allows(&self, step: usize, lr: S) -> bool {
        lr == decayed_rate(self.base_lr(), self.gamma(), step as int)
    }

    fn lr_at(&self, step: usize) -> (r: S) {
        decay_rate(self.base_lr, self.gamma, step as u128)
    }
}

/// A learning rate that grows in a straight line from `base_lr * start_factor` to
/// `base_lr` over the first `warmup_steps` steps, and then stays there.
pub struct LinearWarmupLr<S: Single> {
    base_lr: S,
    warmup_steps: usize,
    start_factor: S,
}

impl<S: Single> LinearWarmupLr<S> {
    pub closed spec fn base_lr(&self) -> S {
        self.base_lr
    }

    pub closed spec fn warmup_steps(&self) -> usize {
        self.warmup_steps
    }

    pub closed spec fn start_factor(&self) -> S {
        self.start_factor
    }

    /// Why a schedule is refused, if it is.
    pub open spec fn error(base_lr: S, warmup_steps: usize, start_factor: S) -> Option<
        ErrorModel,
    > {
        if !positive(base_lr) {
            Some(told(
                    "base_lr は有限かつ正の値でなければならない: ",
                    base_lr,
                ))
        } else if warmup_steps == 0 {
            Some(refused("warmup_steps は 1 以上でなければならない"))
        } else if !(positive(start_factor) && start_factor.at_most(one())) {
            Some(told("start_factor は有限かつ 0 より大きく 1 以下でなければならない: ", start_factor))
        } else {
            None
        }
    }

    /// The learning rate after `position` steps of the warmup.
    pub open spec fn warmed(&self, position: int) -> S {
        let start = self.start_factor().widened();
        let progress = wide::<S>(position).over(wide::<S>(self.warmup_steps() as int));
        S::rounded(
            self.base_lr().widened().times(
                start.plus(one::<S::Wide>().minus(start).times(progress)),
            ),
        )
    }

    pub fn new(base_lr: S, warmup_steps: usize, start_factor: S) -> (r: Result<
        LinearWarmupLr<S>,
        AutodiffError,
    >)
        ensures
            match r {
                Ok(schedule) => {
                    &&& Self::error(base_lr, warmup_steps, start_factor) is None
                    &&& schedule.base_lr() == base_lr
                    &&& schedule.warmup_steps() == warmup_steps
                    &&& schedule.start_factor() == start_factor
                },
                Err(e) => Self::error(base_lr, warmup_steps, start_factor) == Some(e@),
            },
    {
        if !is_positive(base_lr) {
            return Err(tell("base_lr は有限かつ正の値でなければならない: ", base_lr));
        }
        if warmup_steps == 0 {
            return Err(invalid("warmup_steps は 1 以上でなければならない"));
        }
        if !(is_positive(start_factor) && start_factor.le(S::literal(1, 0))) {
            return Err(tell("start_factor は有限かつ 0 より大きく 1 以下でなければならない: ", start_factor));
        }
        Ok(LinearWarmupLr { base_lr, warmup_steps, start_factor })
    }
}

impl<S: Single> LrScheduler<S> for LinearWarmupLr<S> {
    open spec fn allows(&self, step: usize, lr: S) -> bool {
        lr == self.warmed(
            if step < self.warmup_steps() {
                step as int
            } else {
                self.warmup_steps() as int
            },
        )
    }

    fn lr_at(&self, step: usize) -> (r: S) {
        let position: usize = if step < self.warmup_steps {
            step
        } else {
            self.warmup_steps
        };
        let start: S::Wide = self.start_factor.widen();
        let progress: S::Wide = widened::<S>(position as u128).div(
            widened::<S>(self.warmup_steps as u128),
        );
        let unit: S::Wide = <S::Wide as Real>::literal(1, 0);
        S::round(self.base_lr.widen().mul(start.add(unit.sub(start).mul(progress))))
    }
}

/// Every step from the end of the warmup on has the same learning rate.
pub proof fn warmup_ends<S: Single>(schedule: LinearWarmupLr<S>, step: usize, lr: S)
    requires
        schedule.warmup_steps() <= step,
    ensures
        schedule.allows(step, lr) == schedule.allows(schedule.warmup_steps(), lr),
{
}

/// How the learning rate moves between the ends of a phase of [`OneCycleLr`].
#[derive(Debug, Clone, Copy, PartialEq, Eq, Structural)]
pub enum OneCycleAnneal {
    /// Along a cosine wave.
    Cos,
    /// In a straight line.
    Linear,
}

/// Hyperparameters of [`OneCycleLr`].
#[derive(Debug, Clone, Copy, PartialEq)]
pub struct OneCycleLrConfig<S: Single> {
    /// The largest learning rate of the cycle.
    pub max_lr: S,
    /// The number of steps of the cycle.
    pub total_steps: usize,
    /// The part of the cycle in which the learning rate grows.
    pub pct_start: S,
    pub anneal_strategy: OneCycleAnneal,
    /// The cycle starts at `max_lr / div_factor`.
    pub div_factor: S,
    /// The cycle ends at its start over `final_div_factor`.
    pub final_div_factor: S,
    /// Whether the learning rate returns to its start in a phase of its own.
    pub three_phase: bool,
}

impl<S: Single> OneCycleLrConfig<S> {
    /// A cycle with the usual settings.
    pub fn new(max_lr: S, total_steps: usize) -> (r: OneCycleLrConfig<S>)
        ensures
            r == (OneCycleLrConfig {
                max_lr,
                total_steps,
                pct_start: S::decimal(3, -1),
                anneal_strategy: OneCycleAnneal::Cos,
                div_factor: S::decimal(25, 0),
                final_div_factor: S::decimal(1, 4),
                three_phase: false,
            }),
    {
        OneCycleLrConfig {
            max_lr,
            total_steps,
            pct_start: S::literal(3, -1),
            anneal_strategy: OneCycleAnneal::Cos,
            div_factor: S::literal(25, 0),
            final_div_factor: S::literal(1, 4),
            three_phase: false,
        }
    }

    /// The learning rate at the start of the cycle.
    pub open spec fn initial_lr(self) -> S::Wide {
        self.max_lr.widened().over(self.div_factor.widened())
    }

    /// The learning rate at the end of the cycle.
    pub open spec fn min_lr(self) -> S::Wide {
        self.initial_lr().over(self.final_div_factor.widened())
    }

    /// The phases of the cycle.
    pub open spec fn phases(self) -> Seq<OneCyclePhase<S>> {
        let unit = one::<S::Wide>();
        let two = <S::Wide as Real>::decimal(2, 0);
        let total = wide::<S>(self.total_steps as int);
        let pct = self.pct_start.widened();
        let max_lr = self.max_lr.widened();
        let first = OneCyclePhase {
            end_step: pct.times(total).minus(unit),
            start_lr: self.initial_lr(),
            end_lr: max_lr,
        };
        if self.three_phase {
            seq![
                first,
                OneCyclePhase {
                    end_step: two.times(pct).times(total).minus(two),
                    start_lr: max_lr,
                    end_lr: self.initial_lr(),
                },
                OneCyclePhase {
                    end_step: total.minus(unit),
                    start_lr: self.initial_lr(),
                    end_lr: self.min_lr(),
                },
            ]
        } else {
            seq![
                first,
                OneCyclePhase {
                    end_step: total.minus(unit),
                    start_lr: max_lr,
                    end_lr: self.min_lr(),
                },
            ]
        }
    }

    /// Why a cycle is refused, if it is.
    pub open spec fn error(self) -> Option<ErrorModel> {
        if !positive(self.max_lr) {
            Some(told("max_lr は有限かつ正の値でなければならない: ", self.max_lr))
        } else if self.total_steps == 0 {
            Some(refused("total_steps は 1 以上でなければならない"))
        } else if !(positive(self.pct_start) && self.pct_start.less(one())) {
            Some(told("pct_start は有限かつ 0 より大きく 1 未満でなければならない: ", self.pct_start))
        } else if !positive(self.div_factor) {
            Some(told("div_factor は有限かつ正の値でなければならない: ", self.div_factor))
        } else if !positive(self.final_div_factor) {
            Some(told("final_div_factor は有限かつ正の値でなければならない: ", self.final_div_factor))
        } else if !positive(S::rounded(self.initial_lr())) {
            Some(self.initial_lr_lost())
        } else if !positive(S::rounded(self.min_lr())) {
            Some(self.min_lr_lost())
        } else {
            match stall(self.phases(), zero(), 0) {
                Some((i, end_step, start)) => Some(self.phase_stalled(i, end_step, start)),
                None => None,
            }
        }
    }

    /// The error of a cycle whose first learning rate the narrow precision does not
    /// have.
    pub open spec fn initial_lr_lost(self) -> ErrorModel {
        ErrorModel::InvalidArgument(
            "initial_lr(=max_lr/div_factor="@ + self.initial_lr().shown()
                + ") が f32 として表現不能（変換結果 "@ + S::rounded(self.initial_lr()).shown()
                + "）: max_lr="@ + self.max_lr.shown() + " div_factor="@
                + self.div_factor.shown(),
        )
    }

    fn refuse_initial_lr(&self, initial_lr: S::Wide) -> (r: AutodiffError)
        requires
            initial_lr == self.initial_lr(),
        ensures
            r@ == self.initial_lr_lost(),
    {
        let text: String = joined(
            "initial_lr(=max_lr/div_factor=",
            initial_lr.show().as_str(),
        );
        let text: String = followed_by(text, ") が f32 として表現不能（変換結果 ");
        let text: String = followed_by(text, S::round(initial_lr).show().as_str());
        let text: String = followed_by(text, "）: max_lr=");
        let text: String = followed_by(text, self.max_lr.show().as_str());
        let text: String = followed_by(text, " div_factor=");
        AutodiffError::InvalidArgument(followed_by(text, self.div_factor.show().as_str()))
    }

    /// The error of a cycle whose last learning rate the narrow precision does not
    /// have.
    pub open spec fn min_lr_lost(self) -> ErrorModel {
        ErrorModel::InvalidArgument(
            "min_lr(=initial_lr/final_div_factor="@ + self.min_lr().shown()
                + ") が f32 として表現不能（変換結果 "@ + S::rounded(self.min_lr()).shown()
                + "）: max_lr="@ + self.max_lr.shown() + " div_factor="@
                + self.div_factor.shown() + " final_div_factor="@ + self.final_div_factor.shown(),
        )
    }

    fn refuse_min_lr(&self, min_lr: S::Wide) -> (r: AutodiffError)
        requires
            min_lr == self.min_lr(),
        ensures
            r@ == self.min_lr_lost(),
    {
        let text: String = joined(
            "min_lr(=initial_lr/final_div_factor=",
            min_lr.show().as_str(),
        );
        let text: String = followed_by(text, ") が f32 として表現不能（変換結果 ");
        let text: String = followed_by(text, S::round(min_lr).show().as_str());
        let text: String = followed_by(text, "）: max_lr=");
        let text: String = followed_by(text, self.max_lr.show().as_str());
        let text: String = followed_by(text, " div_factor=");
        let text: String = followed_by(text, self.div_factor.show().as_str());
        let text: String = followed_by(text, " final_div_factor=");
        AutodiffError::InvalidArgument(followed_by(text, self.final_div_factor.show().as_str()))
    }

    /// The error of a cycle whose phase `i` does not end after it starts.
    pub open spec fn phase_stalled(self, i: nat, end_step: S::Wide, start: S::Wide) -> ErrorModel {
        ErrorModel::InvalidArgument(
            "pct_start/total_steps/three_phase の組合せによりフェーズ境界が 単調増加でない（phase["@
                + numeral(i) + "].end_step="@ + end_step.shown() + " <= 直前の境界 "@
                + start.shown() + "）: pct_start="@ + self.pct_start.shown() + " total_steps="@
                + numeral(self.total_steps as nat) + " three_phase="@ + truth(self.three_phase),
        )
    }

    fn refuse_phase(&self, i: usize, end_step: S::Wide, start: S::Wide) -> (r: AutodiffError)
        ensures
            r@ == self.phase_stalled(i as nat, end_step, start),
    {
        let text: String = followed_by_count(
            "pct_start/total_steps/three_phase の組合せによりフェーズ境界が 単調増加でない（phase[".to_owned(),
            i,
        );
        let text: String = followed_by(text, "].end_step=");
        let text: String = followed_by(text, end_step.show().as_str());
        let text: String = followed_by(text, " <= 直前の境界 ");
        let text: String = followed_by(text, start.show().as_str());
        let text: String = followed_by(text, "）: pct_start=");
        let text: String = followed_by(text, self.pct_start.show().as_str());
        let text: String = followed_by_count(followed_by(text, " total_steps="), self.total_steps);
        let text: String = followed_by(text, " three_phase=");
        AutodiffError::InvalidArgument(followed_by(text, truth_text(self.three_phase)))
    }
}

/// One phase of a cycle.
#[derive(Debug, Clone, Copy)]
pub struct OneCyclePhase<S: Single> {
    /// Where the phase ends, counted in steps.
    pub end_step: S::Wide,
    pub start_lr: S::Wide,
    pub end_lr: S::Wide,
}

/// The number of the first phase from `i` on that does not end after the one before
/// it, with its end and the end of that one, where phase `i` starts at `start`.
pub open spec fn stall<S: Single>(
    phases: Seq<OneCyclePhase<S>>,
    start: S::Wide,
    i: nat,
) -> Option<(nat, S::Wide, S::Wide)>
    decreases phases.len() - i,
{
    if i >= phases.len() {
        None
    } else if phases[i as int].end_step.at_most(start) {
        Some((i, phases[i as int].end_step, start))
    } else {
        stall(phases, phases[i as int].end_step, i + 1)
    }
}

fn find_stall<S: Single>(phases: &Vec<OneCyclePhase<S>>) -> (r: Option<(usize, S::Wide, S::Wide)>)
    ensures
        match r {
            Some((i, end_step, start)) => stall(phases@, zero(), 0) == Some(
                (i as nat, end_step, start),
            ),
            None => stall(phases@, zero(), 0) is None,
        },
{
    let mut start: S::Wide = <S::Wide as Real>::literal(0, 0);
    let mut i: usize = 0;
    while i < phases.len()
        invariant
            i <= phases@.len(),
            stall(phases@, zero(), 0) == stall(phases@, start, i as nat),
        decreases phases@.len() - i,
    {
        if phases[i].end_step.le(start) {
            return Some((i, phases[i].end_step, start));
        }
        start = phases[i].end_step;
        i = i + 1;
    }
    None
}

impl<S: Single> OneCyclePhase<S> {
    /// The learning rate at `step` of a phase that starts at `start`. The ends of
    /// the phase are met exactly.
    pub open spec fn rate(self, strategy: OneCycleAnneal, start: S::Wide, step: S::Wide) -> S {
        let p = step.minus(start).over(self.end_step.minus(start));
        let half = pi::<S>().times(p).over(<S::Wide as Real>::decimal(2, 0));
        if p.at_most(zero()) {
            S::rounded(self.start_lr)
        } else if one::<S::Wide>().at_most(p) {
            S::rounded(self.end_lr)
        } else {
            S::rounded(
                match strategy {
                    OneCycleAnneal::Cos => self.start_lr.times(half.cosine().powered(2)).plus(
                        self.end_lr.times(half.sine().powered(2)),
                    ),
                    OneCycleAnneal::Linear => self.end_lr.minus(self.start_lr).times(p).plus(
                        self.start_lr,
                    ),
                },
            )
        }
    }

    fn rate_at(&self, strategy: OneCycleAnneal, start: S::Wide, step: S::Wide) -> (r: S)
        ensures
            r == self.rate(strategy, start, step),
    {
        let p: S::Wide = step.sub(start).div(self.end_step.sub(start));
        if p.le(<S::Wide as Real>::literal(0, 0)) {
            return S::round(self.start_lr);
        }
        if <S::Wide as Real>::literal(1, 0).le(p) {
            return S::round(self.end_lr);
        }
        match strategy {
            OneCycleAnneal::Cos => {
                let pi: S::Wide = <S::Wide as Real>::literal(3141592653589793238, -18);
                let half: S::Wide = pi.mul(p).div(<S::Wide as Real>::literal(2, 0));
                let w_end: S::Wide = half.sin().powi(2);
                let w_start: S::Wide = half.cos().powi(2);
                S::round(self.start_lr.mul(w_start).add(self.end_lr.mul(w_end)))
            },
            OneCycleAnneal::Linear => S::round(
                self.end_lr.sub(self.start_lr).mul(p).add(self.start_lr),
            ),
        }
    }
}

/// The learning rate at `step`, looking from phase `i` on, which starts at
/// `start`. The last phase goes on for ever.
pub open spec fn cycle_rate<S: Single>(
    phases: Seq<OneCyclePhase<S>>,
    strategy: OneCycleAnneal,
    start: S::Wide,
    step: S::Wide,
    i: int,
) -> S
    decreases phases.len() - i,
{
    if i >= phases.len() - 1 || step.at_most(phases[i].end_step) {
        phases[i].rate(strategy, start, step)
    } else {
        cycle_rate(phases, strategy, phases[i].end_step, step, i + 1)
    }
}

/// A cycle in which the learning rate grows to its largest value and then falls
/// far below its start.
pub struct OneCycleLr<S: Single> {
    phases: Vec<OneCyclePhase<S>>,
    anneal_strategy: OneCycleAnneal,
    last_step: usize,
}

impl<S: Single> OneCycleLr<S> {
    pub closed spec fn phases(&self) -> Seq<OneCyclePhase<S>> {
        self.phases@
    }

    pub closed spec fn anneal_strategy(&self) -> OneCycleAnneal {
        self.anneal_strategy
    }

    /// The number of the last step of the cycle.
    pub closed spec fn last_step(&self) -> usize {
        self.last_step
    }

    #[verifier::type_invariant]
    spec fn wf(&self) -> bool {
        self.phases@.len() > 0
    }

    pub fn new(config: OneCycleLrConfig<S>) -> (r: Result<OneCycleLr<S>, AutodiffError>)
        ensures
            match r {
                Ok(schedule) => {
                    &&& config.error() is None
                    &&& schedule.phases() == config.phases()
                    &&& schedule.anneal_strategy() == config.anneal_strategy
                    &&& schedule.last_step() == config.total_steps - 1
                },
                Err(e) => config.error() == Some(e@),
            },
    {
        if !is_positive(config.max_lr) {
            return Err(tell("max_lr は有限かつ正の値でなければならない: ", config.max_lr));
        }
        if config.total_steps == 0 {
            return Err(invalid("total_steps は 1 以上でなければならない"));
        }
        if !(is_positive(config.pct_start) && config.pct_start.lt(S::literal(1, 0))) {
            return Err(tell("pct_start は有限かつ 0 より大きく 1 未満でなければならない: ", config.pct_start));
        }
        if !is_positive(config.div_factor) {
            return Err(tell("div_factor は有限かつ正の値でなければならない: ", config.div_factor));
        }
        if !is_positive(config.final_div_factor) {
            return Err(tell("final_div_factor は有限かつ正の値でなければならない: ", config.final_div_factor));
        }
        let unit: S::Wide = <S::Wide as Real>::literal(1, 0);
        let two: S::Wide = <S::Wide as Real>::literal(2, 0);
        let max_lr: S::Wide = config.max_lr.widen();
        let total: S::Wide = widened::<S>(config.total_steps as u128);
        let pct: S::Wide = config.pct_start.widen();
        let initial_lr: S::Wide = max_lr.div(config.div_factor.widen());
        let min_lr: S::Wide = initial_lr.div(config.final_div_factor.widen());
        if !is_positive(S::round(initial_lr)) {
            return Err(config.refuse_initial_lr(initial_lr));
        }
        if !is_positive(S::round(min_lr)) {
            return Err(config.refuse_min_lr(min_lr));
        }
        let mut phases: Vec<OneCyclePhase<S>> = Vec::new();
        phases.push(
            OneCyclePhase {
                end_step: pct.mul(total).sub(unit),
                start_lr: initial_lr,
                end_lr: max_lr,
            },
        );
        if config.three_phase {
            phases.push(
                OneCyclePhase {
                    end_step: two.mul(pct).mul(total).sub(two),
                    start_lr: max_lr,
                    end_lr: initial_lr,
                },
            );
            phases.push(
                OneCyclePhase { end_step: total.sub(unit), start_lr: initial_lr, end_lr: min_lr },
            );
        } else {
            phases.push(
                OneCyclePhase { end_step: total.sub(unit), start_lr: max_lr, end_lr: min_lr },
            );
        }
        assert(phases@ =~= config.phases());
        match find_stall(&phases) {
            Some((i, end_step, start)) => {
                return Err(config.refuse_phase(i, end_step, start));
            },
            None => {},
        }
        Ok(
            OneCycleLr {
                phases,
                anneal_strategy: config.anneal_strategy,
                last_step: config.total_steps - 1,
            },
        )
    }
}

impl<S: Single> LrScheduler<S> for OneCycleLr<S> {
    /// Steps after the end of the cycle have the learning rate of its last step.
    open spec fn allows(&self, step: usize, lr: S) -> bool {
        let step = if step < self.last_step() {
            step
        } else {
            self.last_step()
        };
        lr == cycle_rate(self.phases(), self.anneal_strategy(), zero(), wide::<S>(step as int), 0)
    }

    fn lr_at(&self, step: usize) -> (r: S) {
        proof {
            use_type_invariant(self);
        }
        let step: usize = if step < self.last_step {
            step
        } else {
            self.last_step
        };
        let step: S::Wide = widened::<S>(step as u128);
        let last: usize = self.phases.len() - 1;
        let mut start: S::Wide = <S::Wide as Real>::literal(0, 0);
        let mut i: usize = 0;
        while i < last && !step.le(self.phases[i].end_step)
            invariant
                i <= last,
                last + 1 == self.phases@.len(),
                cycle_rate(self.phases@, self.anneal_strategy, zero(), step, 0) == cycle_rate(
                    self.phases@,
                    self.anneal_strategy,
                    start,
                    step,
                    i as int,
                ),
            decreases last - i,
        {
            start = self.phases[i].end_step;
            i = i + 1;
        }
        self.phases[i].rate_at(self.anneal_strategy, start, step)
    }
}

/// From the last step of the cycle on the learning rate stays the same.
pub proof fn cycle_ends<S: Single>(schedule: OneCycleLr<S>, step: usize, lr: S)
    requires
        schedule.last_step() <= step,
    ensures
        schedule.allows(step, lr) == schedule.allows(schedule.last_step(), lr),
{
}

/// How many of the first `n` milestones have been passed at `step`. A milestone
/// that is listed twice counts twice.
pub open spec fn passed_of(milestones: Seq<usize>, step: usize, n: int) -> nat
    decreases n,
{
    if n <= 0 {
        0
    } else {
        passed_of(milestones, step, n - 1) + if milestones[n - 1] <= step {
            1nat
        } else {
            0nat
        }
    }
}

/// How many milestones have been passed at `step`.
pub open spec fn passed(milestones: Seq<usize>, step: usize) -> nat {
    passed_of(milestones, step, milestones.len() as int)
}

/// Whether milestones are in ascending order.
pub open spec fn ascending(milestones: Seq<usize>) -> bool {
    forall|i: int, j: int| 0 <= i <= j < milestones.len() ==> milestones[i] <= milestones[j]
}

proof fn passed_of_prefix(a: Seq<usize>, b: Seq<usize>, step: usize, n: int)
    requires
        n <= a.len(),
        n <= b.len(),
        forall|i: int| 0 <= i < n ==> a[i] == b[i],
    ensures
        passed_of(a, step, n) == passed_of(b, step, n),
    decreases n,
{
    if n > 0 {
        passed_of_prefix(a, b, step, n - 1);
    }
}

/// Where a milestone is put makes no difference to how many have been passed.
proof fn passed_after_insert(milestones: Seq<usize>, at: int, added: usize, step: usize, n: int)
    requires
        0 <= at <= n <= milestones.len(),
    ensures
        passed_of(milestones.insert(at, added), step, n + 1) == passed_of(milestones, step, n)
            + if added <= step {
            1nat
        } else {
            0nat
        },
    decreases n,
{
    let more = milestones.insert(at, added);
    if n == at {
        passed_of_prefix(more, milestones, step, n);
        assert(more[n] == added);
    } else {
        passed_after_insert(milestones, at, added, step, n - 1);
        assert(more[n] == milestones[n - 1]);
    }
}

/// In ascending order the passed milestones come first.
proof fn passed_is_a_prefix(milestones: Seq<usize>, step: usize, k: int, n: int)
    requires
        0 <= k,
        0 <= n <= milestones.len(),
        forall|i: int| 0 <= i < k && i < n ==> milestones[i] <= step,
        forall|i: int| k <= i < n ==> milestones[i] > step,
    ensures
        passed_of(milestones, step, n) == if k < n {
            k
        } else {
            n
        },
    decreases n,
{
    if n > 0 {
        passed_is_a_prefix(milestones, step, k, n - 1);
    }
}

/// The number of milestones that have been passed at `step`, by bisection.
fn partition_point(milestones: &Vec<usize>, step: usize) -> (r: usize)
    requires
        ascending(milestones@),
    ensures
        r == passed(milestones@, step),
        r <= milestones@.len(),
        forall|i: int| 0 <= i < r ==> milestones@[i] <= step,
        forall|i: int| r <= i < milestones@.len() ==> milestones@[i] > step,
{
    let mut low: usize = 0;
    let mut high: usize = milestones.len();
    while low < high
        invariant
            ascending(milestones@),
            low <= high <= milestones@.len(),
            forall|i: int| 0 <= i < low ==> milestones@[i] <= step,
            forall|i: int| high <= i < milestones@.len() ==> milestones@[i] > step,
        decreases high - low,
    {
        let middle: usize = low + (high - low) / 2;
        if milestones[middle] <= step {
            low = middle + 1;
        } else {
            high = middle;
        }
    }
    proof {
        passed_is_a_prefix(milestones@, step, low as int, milestones@.len() as int);
    }
    low
}

/// The milestones in ascending order.
fn sorted(milestones: &[usize]) -> (r: Vec<usize>)
    ensures
        ascending(r@),
        forall|step: usize| passed(r@, step) == #[trigger] passed(milestones@, step),
{
    let mut out: Vec<usize> = Vec::new();
    let mut n: usize = 0;
    while n < milestones.len()
        invariant
            n <= milestones@.len(),
            out@.len() == n,
            ascending(out@),
            forall|step: usize|
                #[trigger] passed(out@, step) == passed_of(milestones@, step, n as int),
        decreases milestones@.len() - n,
    {
        let added: usize = milestones[n];
        let at: usize = partition_point(&out, added);
        let ghost before = out@;
        out.insert(at, added);
        assert forall|step: usize| #[trigger] passed(out@, step) == passed_of(
            milestones@,
            step,
            n + 1,
        ) by {
            passed_after_insert(before, at as int, added, step, n as int);
            assert(passed(before, step) == passed_of(milestones@, step, n as int));
        }
        n = n + 1;
    }
    out
}

/// A learning rate that is multiplied by `gamma` at each milestone.
pub struct MultiStepLr<S: Single> {
    base_lr: S,
    milestones: Vec<usize>,
    gamma: S,
}

impl<S: Single> MultiStepLr<S> {
    pub closed spec fn base_lr(&self) -> S {
        self.base_lr
    }

    pub closed spec fn milestones(&self) -> Seq<usize> {
        self.milestones@
    }

    pub closed spec fn gamma(&self) -> S {
        self.gamma
    }

    #[verifier::type_invariant]
    spec fn wf(&self) -> bool {
        ascending(self.milestones@)
    }

    /// The milestones may be in any order and may be listed more than once.
    pub fn new(base_lr: S, milestones: &[usize], gamma: S) -> (r: Result<
        MultiStepLr<S>,
        AutodiffError,
    >)
        ensures
            match r {
                Ok(schedule) => {
                    &&& ExponentialLr::error(base_lr, gamma) is None
                    &&& schedule.base_lr() == base_lr
                    &&& schedule.gamma() == gamma
                    &&& ascending(schedule.milestones())
                    &&& forall|step: usize|
                        passed(schedule.milestones(), step) == #[trigger] passed(milestones@, step)
                },
                Err(e) => ExponentialLr::error(base_lr, gamma) == Some(e@),
            },
    {
        if !is_positive(base_lr) {
            return Err(tell("base_lr は有限かつ正の値でなければならない: ", base_lr));
        }
        if !is_positive(gamma) {
            return Err(tell("gamma は有限かつ正の値でなければならない: ", gamma));
        }
        Ok(MultiStepLr { base_lr, milestones: sorted(milestones), gamma })
    }
}

impl<S: Single> LrScheduler<S> for MultiStepLr<S> {
    open spec fn allows(&self, step: usize, lr: S) -> bool {
        lr == decayed_rate(
            self.base_lr(),
            self.gamma(),
            passed(self.milestones(), step) as int,
        )
    }

    fn lr_at(&self, step: usize) -> (r: S) {
        proof {
            use_type_invariant(self);
        }
        let count: usize = partition_point(&self.milestones, step);
        decay_rate(self.base_lr, self.gamma, count as u128)
    }
}

/// The position of `step` in its cycle and the length of that cycle, where a cycle
/// of the given length starts at `start` and each cycle is `mult` times as long as
/// the one before it.
pub open spec fn cycle_of(step: nat, start: nat, length: nat, mult: nat) -> (nat, nat)
    decreases step - start,
{
    if step < start + length || length == 0 {
        ((step - start) as nat, length)
    } else {
        cycle_of(step, start + length, length * mult, mult)
    }
}

/// A step lies inside its cycle, and the length of the cycle is a multiple of the
/// length of the first one.
pub proof fn steps_lie_in_their_cycles(step: nat, start: nat, length: nat, mult: nat)
    requires
        start <= step,
        length > 0,
        mult > 0,
    ensures
        cycle_of(step, start, length, mult).0 < cycle_of(step, start, length, mult).1,
        cycle_of(step, start, length, mult).1 % length == 0,
    decreases step - start,
{
    if step < start + length {
        assert(length % length == 0) by (nonlinear_arith)
            requires
                length > 0,
        ;
    } else {
        assert(length * mult > 0) by (nonlinear_arith)
            requires
                length > 0,
                mult > 0,
        ;
        steps_lie_in_their_cycles(step, start + length, length * mult, mult);
        let last = cycle_of(step, start, length, mult).1;
        let times = last / (length * mult);
        vstd::arithmetic::div_mod::lemma_fundamental_div_mod(last as int, (length * mult) as int);
        assert(last == length * (mult * times)) by (nonlinear_arith)
            requires
                last == (length * mult) * times,
        ;
        vstd::arithmetic::div_mod::lemma_mod_multiples_basic((mult * times) as int, length as int);
        assert(length * (mult * times) == (mult * times) * length) by (nonlinear_arith);
    }
}

/// With cycles of one length the position is the remainder.
pub proof fn equal_cycles(step: nat, start: nat, length: nat)
    requires
        start <= step,
        length > 0,
    ensures
        cycle_of(step, start, length, 1) == ((step - start) as nat % length, length),
    decreases step - start,
{
    if step < start + length {
        vstd::arithmetic::div_mod::lemma_small_mod((step - start) as nat, length);
    } else {
        equal_cycles(step, start + length, length);
        vstd::arithmetic::div_mod::lemma_mod_sub_multiples_vanish(step - start, length as int);
    }
}

/// A cosine wave that starts again at `base_lr` after each cycle. The first cycle
/// has `t_0` steps, and each further one is `t_mult` times as long.
pub struct CosineAnnealingWarmRestarts<S: Single> {
    base_lr: S,
    t_0: usize,
    t_mult: usize,
    eta_min: S,
}

impl<S: Single> CosineAnnealingWarmRestarts<S> {
    pub closed spec fn base_lr(&self) -> S {
        self.base_lr
    }

    pub closed spec fn t_0(&self) -> usize {
        self.t_0
    }

    pub closed spec fn t_mult(&self) -> usize {
        self.t_mult
    }

    pub closed spec fn eta_min(&self) -> S {
        self.eta_min
    }

    #[verifier::type_invariant]
    spec fn wf(&self) -> bool {
        self.t_0 > 0 && self.t_mult > 0
    }

    /// Why a schedule is refused, if it is.
    pub open spec fn error(base_lr: S, t_0: usize, t_mult: usize, eta_min: S) -> Option<
        ErrorModel,
    > {
        if !positive(base_lr) {
            Some(told(
                    "base_lr は有限かつ正の値でなければならない: ",
                    base_lr,
                ))
        } else if t_0 == 0 {
            Some(refused("t_0 は 1 以上でなければならない"))
        } else if t_mult == 0 {
            Some(refused("t_mult は 1 以上でなければならない"))
        } else if !lower_end(base_lr, eta_min) {
            Some(
                told_two(
                    "eta_min は有限かつ 0 以上 base_lr 以下でなければならない: eta_min=",
                    eta_min,
                    " base_lr=",
                    base_lr,
                    "",
                ),
            )
        } else {
            None
        }
    }

    pub fn new(base_lr: S, t_0: usize, t_mult: usize, eta_min: S) -> (r: Result<
        CosineAnnealingWarmRestarts<S>,
        AutodiffError,
    >)
        ensures
            match r {
                Ok(schedule) => {
                    &&& Self::error(base_lr, t_0, t_mult, eta_min) is None
                    &&& schedule.base_lr() == base_lr
                    &&& schedule.t_0() == t_0
                    &&& schedule.t_mult() == t_mult
                    &&& schedule.eta_min() == eta_min
                },
                Err(e) => Self::error(base_lr, t_0, t_mult, eta_min) == Some(e@),
            },
    {
        if !is_positive(base_lr) {
            return Err(tell("base_lr は有限かつ正の値でなければならない: ", base_lr));
        }
        if t_0 == 0 {
            return Err(invalid("t_0 は 1 以上でなければならない"));
        }
        if t_mult == 0 {
            return Err(invalid("t_mult は 1 以上でなければならない"));
        }
        if !(is_non_negative(eta_min) && eta_min.le(base_lr)) {
            return Err(
                tell_two(
                    "eta_min は有限かつ 0 以上 base_lr 以下でなければならない: eta_min=",
                    eta_min,
                    " base_lr=",
                    base_lr,
                    "",
                ),
            );
        }
        Ok(CosineAnnealingWarmRestarts { base_lr, t_0, t_mult, eta_min })
    }

    /// The position of `step` in its cycle, and the length of that cycle.
    pub fn cycle_position(&self, step: usize) -> (r: (u128, u128))
        ensures
            (r.0 as nat, r.1 as nat) == cycle_of(
                step as nat,
                0,
                self.t_0() as nat,
                self.t_mult() as nat,
            ),
    {
        proof {
            use_type_invariant(self);
        }
        if self.t_mult == 1 {
            proof {
                equal_cycles(step as nat, 0, self.t_0 as nat);
            }
            return ((step % self.t_0) as u128, self.t_0 as u128);
        }
        let step: u128 = step as u128;
        let mult: u128 = self.t_mult as u128;
        let mut start: u128 = 0;
        let mut length: u128 = self.t_0 as u128;
        while start + length <= step
            invariant
                step <= u64::MAX,
                0 < mult <= u64::MAX,
                start <= step,
                0 < length <= u64::MAX * u64::MAX,
                cycle_of(step as nat, 0, self.t_0 as nat, mult as nat) == cycle_of(
                    step as nat,
                    start as nat,
                    length as nat,
                    mult as nat,
                ),
            decreases step - start,
        {
            assert(0 < length * mult <= u64::MAX * u64::MAX) by (nonlinear_arith)
                requires
                    0 < length <= u64::MAX,
                    0 < mult <= u64::MAX,
            ;
            start = start + length;
            length = length * mult;
        }
        (step - start, length)
    }
}

impl<S: Single> LrScheduler<S> for CosineAnnealingWarmRestarts<S> {
    open spec fn allows(&self, step: usize, lr: S) -> bool {
        let (position, length) = cycle_of(
            step as nat,
            0,
            self.t_0() as nat,
            self.t_mult() as nat,
        );
        lr == annealed(self.base_lr(), self.eta_min(), position as int, length as int)
    }

    fn lr_at(&self, step: usize) -> (r: S) {
        let (position, length) = self.cycle_position(step);
        anneal(self.base_lr, self.eta_min, position, length)
    }
}

/// A triangle wave between `base_lr` and `max_lr`.
pub struct CyclicLr<S: Single> {
    base_lr: S,
    max_lr: S,
    step_size_up: usize,
    step_size_down: usize,
}

impl<S: Single> CyclicLr<S> {
    pub closed spec fn base_lr(&self) -> S {
        self.base_lr
    }

    pub closed spec fn max_lr(&self) -> S {
        self.max_lr
    }

    pub closed spec fn step_size_up(&self) -> usize {
        self.step_size_up
    }

    pub closed spec fn step_size_down(&self) -> usize {
        self.step_size_down
    }

    #[verifier::type_invariant]
    spec fn wf(&self) -> bool {
        &&& self.step_size_up > 0
        &&& self.step_size_down > 0
        &&& self.step_size_up + self.step_size_down <= usize::MAX
    }

    /// Why a schedule is refused, if it is.
    pub open spec fn error(
        base_lr: S,
        max_lr: S,
        step_size_up: usize,
        step_size_down: usize,
    ) -> Option<ErrorModel> {
        if !positive(base_lr) {
            Some(told(
                    "base_lr は有限かつ正の値でなければならない: ",
                    base_lr,
                ))
        } else if !(max_lr.finite() && !max_lr.less(base_lr)) {
            Some(
                told_two(
                    "max_lr は有限かつ base_lr 以上でなければならない: max_lr=",
                    max_lr,
                    " base_lr=",
                    base_lr,
                    "",
                ),
            )
        } else if step_size_up == 0 {
            Some(refused("step_size_up は 1 以上でなければならない"))
        } else if step_size_down == 0 {
            Some(refused("step_size_down は 1 以上でなければならない（下降フェーズが存在しない退化設定）"))
        } else if step_size_up + step_size_down > usize::MAX {
            Some(
                told_counts(
                    "step_size_up + step_size_down が usize で overflow する: step_size_up=",
                    step_size_up as nat,
                    " step_size_down=",
                    step_size_down as nat,
                    "",
                ),
            )
        } else {
            None
        }
    }

    /// The number of falling steps is that of rising ones where none is given.
    pub fn new(
        base_lr: S,
        max_lr: S,
        step_size_up: usize,
        step_size_down: Option<usize>,
    ) -> (r: Result<CyclicLr<S>, AutodiffError>)
        ensures
            ({
                let down = match step_size_down {
                    Some(down) => down,
                    None => step_size_up,
                };
                match r {
                    Ok(schedule) => {
                        &&& Self::error(base_lr, max_lr, step_size_up, down) is None
                        &&& schedule.base_lr() == base_lr
                        &&& schedule.max_lr() == max_lr
                        &&& schedule.step_size_up() == step_size_up
                        &&& schedule.step_size_down() == down
                    },
                    Err(e) => Self::error(base_lr, max_lr, step_size_up, down) == Some(e@),
                }
            }),
    {
        if !is_positive(base_lr) {
            return Err(tell("base_lr は有限かつ正の値でなければならない: ", base_lr));
        }
        if !(max_lr.is_finite() && !max_lr.lt(base_lr)) {
            return Err(
                tell_two(
                    "max_lr は有限かつ base_lr 以上でなければならない: max_lr=",
                    max_lr,
                    " base_lr=",
                    base_lr,
                    "",
                ),
            );
        }
        if step_size_up == 0 {
            return Err(invalid("step_size_up は 1 以上でなければならない"));
        }
        let step_size_down: usize = match step_size_down {
            Some(down) => down,
            None => step_size_up,
        };
        if step_size_down == 0 {
            return Err(invalid("step_size_down は 1 以上でなければならない（下降フェーズが存在しない退化設定）"));
        }
        if step_size_up.checked_add(step_size_down).is_none() {
            return Err(
                tell_counts(
                    "step_size_up + step_size_down が usize で overflow する: step_size_up=",
                    step_size_up,
                    " step_size_down=",
                    step_size_down,
                    "",
                ),
            );
        }
        Ok(CyclicLr { base_lr, max_lr, step_size_up, step_size_down })
    }

    /// How far the learning rate is on its way from `base_lr` to `max_lr` at a
    /// position of the cycle.
    pub open spec fn scale(&self, position: int) -> S::Wide {
        let (up, down) = (self.step_size_up() as int, self.step_size_down() as int);
        if position <= up {
            wide::<S>(position).over(wide::<S>(up))
        } else {
            wide::<S>(up + down - position).over(wide::<S>(down))
        }
    }
}

impl<S: Single> LrScheduler<S> for CyclicLr<S> {
    open spec fn allows(&self, step: usize, lr: S) -> bool {
        let total = self.step_size_up() + self.step_size_down();
        let low = self.base_lr().widened();
        lr == S::rounded(
            low.plus(self.max_lr().widened().minus(low).times(self.scale(step as int % total))),
        )
    }

    fn lr_at(&self, step: usize) -> (r: S) {
        proof {
            use_type_invariant(self);
        }
        let total: usize = self.step_size_up + self.step_size_down;
        let position: usize = step % total;
        let scale: S::Wide = if position <= self.step_size_up {
            widened::<S>(position as u128).div(widened::<S>(self.step_size_up as u128))
        } else {
            widened::<S>((total - position) as u128).div(
                widened::<S>(self.step_size_down as u128),
            )
        };
        let low: S::Wide = self.base_lr.widen();
        S::round(low.add(self.max_lr.widen().sub(low).mul(scale)))
    }
}

/// A wave repeats after one cycle.
pub proof fn cyclic_schedule_repeats<S: Single>(schedule: CyclicLr<S>, step: usize, lr: S)
    requires
        0 < schedule.step_size_up() + schedule.step_size_down(),
        step + schedule.step_size_up() + schedule.step_size_down() <= usize::MAX,
    ensures
        schedule.allows(
            (step + schedule.step_size_up() + schedule.step_size_down()) as usize,
            lr,
        ) == schedule.allows(step, lr),
{
    let total = schedule.step_size_up() + schedule.step_size_down();
    vstd::arithmetic::div_mod::lemma_mod_add_multiples_vanish(step as int, total);
}

/// A learning rate that is a function of the step number times `base_lr`.
pub struct LambdaLr<S: Single, F: Fn(usize) -> S::Wide> {
    base_lr: S,
    lr_lambda: F,
}

impl<S: Single, F: Fn(usize) -> S::Wide> LambdaLr<S, F> {
    pub closed spec fn base_lr(&self) -> S {
        self.base_lr
    }

    pub closed spec fn lr_lambda(&self) -> F {
        self.lr_lambda
    }

    #[verifier::type_invariant]
    spec fn wf(&self) -> bool {
        forall|step: usize| call_requires(self.lr_lambda, (step,))
    }

    pub fn new(base_lr: S, lr_lambda: F) -> (r: Result<LambdaLr<S, F>, AutodiffError>)
        requires
            forall|step: usize| call_requires(lr_lambda, (step,)),
        ensures
            match r {
                Ok(schedule) => {
                    &&& positive(base_lr)
                    &&& schedule.base_lr() == base_lr
                    &&& schedule.lr_lambda() == lr_lambda
                },
                Err(e) => !positive(base_lr) && e@ == told(
                    "base_lr は有限かつ正の値でなければならない: ",
                    base_lr,
                ),
            },
    {
        if !is_positive(base_lr) {
            return Err(tell("base_lr は有限かつ正の値でなければならない: ", base_lr));
        }
        Ok(LambdaLr { base_lr, lr_lambda })
    }
}

impl<S: Single, F: Fn(usize) -> S::Wide> LrScheduler<S> for LambdaLr<S, F> {
    open spec fn allows(&self, step: usize, lr: S) -> bool {
        exists|factor: S::Wide| #[trigger]
            call_ensures(self.lr_lambda(), (step,), factor) && lr == S::rounded(
                self.base_lr().widened().times(factor),
            )
    }

    fn lr_at(&self, step: usize) -> (r: S) {
        proof {
            use_type_invariant(self);
        }
        let factor: S::Wide = (self.lr_lambda)(step);
        assert(call_ensures(self.lr_lambda(), (step,), factor));
        S::round(self.base_lr.widen().mul(factor))
    }
}

/// The error of milestones that are not strictly ascending.
pub open spec fn told_milestones(milestones: Seq<usize>) -> ErrorModel {
    ErrorModel::InvalidArgument(
        "milestones は狭義単調増加でなければならない: "@ + bracketed(milestones),
    )
}

fn tell_milestones(milestones: &Vec<usize>) -> (r: AutodiffError)
    ensures
        r@ == told_milestones(milestones@),
{
    AutodiffError::InvalidArgument(
        joined(
            "milestones は狭義単調増加でなければならない: ",
            bracketed_text(milestones.as_slice()).as_str(),
        ),
    )
}

/// Schedules that follow one another. Each starts anew at step 0 when its turn
/// comes.
#[verifier::reject_recursive_types(S)]
pub struct SequentialLr<S: Single> {
    schedulers: Vec<Box<dyn LrScheduler<S>>>,
    milestones: Vec<usize>,
}

/// Whether milestones are strictly ascending.
pub open spec fn strictly_ascending(milestones: Seq<usize>) -> bool {
    forall|i: int, j: int| 0 <= i < j < milestones.len() ==> milestones[i] < milestones[j]
}

fn is_strictly_ascending(milestones: &Vec<usize>) -> (r: bool)
    ensures
        r == strictly_ascending(milestones@),
{
    let mut i: usize = 1;
    while i < milestones.len()
        invariant
            1 <= i,
            i <= milestones@.len() || milestones@.len() == 0,
            forall|a: int, b: int|
                0 <= a < b < i && b < milestones@.len() ==> milestones@[a] < milestones@[b],
        decreases milestones@.len() - i,
    {
        if milestones[i - 1] >= milestones[i] {
            assert(!(milestones@[i - 1] < milestones@[i as int]));
            return false;
        }
        i = i + 1;
    }
    true
}

impl<S: Single> SequentialLr<S> {
    pub closed spec fn schedulers(&self) -> Seq<Box<dyn LrScheduler<S>>> {
        self.schedulers@
    }

    pub closed spec fn milestones(&self) -> Seq<usize> {
        self.milestones@
    }

    #[verifier::type_invariant]
    spec fn wf(&self) -> bool {
        &&& self.milestones@.len() + 1 == self.schedulers@.len()
        &&& ascending(self.milestones@)
    }

    /// Why a sequence is refused, if it is.
    pub open spec fn error(schedulers: nat, milestones: Seq<usize>) -> Option<ErrorModel> {
        if schedulers == 0 {
            Some(refused("schedulers は 1 個以上でなければならない"))
        } else if milestones.len() + 1 != schedulers {
            Some(
                told_counts(
                    "milestones.len() + 1 は schedulers.len() と一致しなければならない: milestones.len()=",
                    milestones.len(),
                    " schedulers.len()=",
                    schedulers,
                    "",
                ),
            )
        } else if milestones.len() > 0 && milestones[0] == 0 {
            Some(refused("milestones の先頭は 1 以上でなければならない（先頭 0 は最初の段が長さ 0 になる退化設定）"))
        } else if !strictly_ascending(milestones) {
            Some(told_milestones(milestones))
        } else {
            None
        }
    }

    pub fn new(schedulers: Vec<Box<dyn LrScheduler<S>>>, milestones: Vec<usize>) -> (r: Result<
        SequentialLr<S>,
        AutodiffError,
    >)
        ensures
            match r {
                Ok(schedule) => {
                    &&& Self::error(schedulers@.len(), milestones@) is None
                    &&& schedule.schedulers() == schedulers@
                    &&& schedule.milestones() == milestones@
                },
                Err(e) => Self::error(schedulers@.len(), milestones@) == Some(e@),
            },
    {
        if schedulers.len() == 0 {
            return Err(invalid("schedulers は 1 個以上でなければならない"));
        }
        if milestones.len() != schedulers.len() - 1 {
            return Err(
                tell_counts(
                    "milestones.len() + 1 は schedulers.len() と一致しなければならない: milestones.len()=",
                    milestones.len(),
                    " schedulers.len()=",
                    schedulers.len(),
                    "",
                ),
            );
        }
        if milestones.len() > 0 && milestones[0] == 0 {
            return Err(invalid("milestones の先頭は 1 以上でなければならない（先頭 0 は最初の段が長さ 0 になる退化設定）"));
        }
        if !is_strictly_ascending(&milestones) {
            return Err(tell_milestones(&milestones));
        }
        Ok(SequentialLr { schedulers, milestones })
    }
}

impl<S: Single> LrScheduler<S> for SequentialLr<S> {
    open spec fn allows(&self, step: usize, lr: S) -> bool {
        let turn = passed(self.milestones(), step) as int;
        let start = if turn == 0 {
            0
        } else {
            self.milestones()[turn - 1]
        };
        self.schedulers()[turn].allows((step - start) as usize, lr)
    }

    fn lr_at(&self, step: usize) -> (r: S) {
        proof {
            use_type_invariant(self);
        }
        let turn: usize = partition_point(&self.milestones, step);
        let start: usize = if turn == 0 {
            0
        } else {
            self.milestones[turn - 1]
        };
        self.schedulers[turn].lr_at(step - start)
    }
}

proof fn small_integers_are_decimals<R: Real>(m: i64, k: nat)
    requires
        0 <= m <= 4,
        k <= 18,
    ensures
        R::decimal(m * ten_to(k), -k) == R::decimal(m as int, 0),
        0 <= m * ten_to(k) <= 4_000_000_000_000_000_000,
    decreases k,
{
    assert(ten_to(18) == 1_000_000_000_000_000_000) by {
        reveal_with_fuel(ten_to, 19);
    }
    powers_of_ten_grow(k, 18);
    assert(0 <= m * ten_to(k) <= 4_000_000_000_000_000_000) by (nonlinear_arith)
        requires
            0 <= m <= 4,
            1 <= ten_to(k) <= 1_000_000_000_000_000_000,
    ;
    if k > 0 {
        small_integers_are_decimals::<R>(m, (k - 1) as nat);
        let before = m * ten_to((k - 1) as nat);
        R::decimals(before as i64, 0, (k - 1) as u32);
        assert(10 * before == m * ten_to(k)) by (nonlinear_arith)
            requires
                before == m * ten_to((k - 1) as nat),
                ten_to(k) == 10 * ten_to((k - 1) as nat),
        ;
    }
}

proof fn powers_of_ten_grow(a: nat, b: nat)
    requires
        a <= b,
    ensures
        1 <= ten_to(a) <= ten_to(b),
    decreases b,
{
    if a < b {
        powers_of_ten_grow(a, (b - 1) as nat);
    } else if b > 0 {
        powers_of_ten_grow((a - 1) as nat, (b - 1) as nat);
    }
}

/// The number pi lies between three and four.
pub proof fn pi_lies_between_three_and_four<S: Single>()
    ensures
        pi::<S>().finite(),
        <S::Wide as Real>::decimal(3, 0).at_most(pi::<S>()),
        pi::<S>().at_most(<S::Wide as Real>::decimal(4, 0)),
{
    assert(ten_to(18) == 1_000_000_000_000_000_000) by {
        reveal_with_fuel(ten_to, 19);
    }
    small_integers_are_decimals::<S::Wide>(3, 18);
    small_integers_are_decimals::<S::Wide>(4, 18);
    <S::Wide as Real>::decimals(3_000_000_000_000_000_000, 3141592653589793238, 18);
    <S::Wide as Real>::decimals(3141592653589793238, 4_000_000_000_000_000_000, 18);
    <S::Wide as Real>::decimals(3, 3, 0);
    <S::Wide as Real>::decimals(4, 4, 0);
    <S::Wide as Real>::decimal(3, 0).order(pi::<S>(), <S::Wide as Real>::decimal(4, 0));
}

/// A share of nothing is nothing.
proof fn nothing_divided<R: Real>(z: R, d: R)
    requires
        z.finite(),
        z.same(zero()),
        zero::<R>().less(d),
    ensures
        z.over(d).same(zero()),
        z.over(d).finite(),
{
    zero_is_zero::<R>();
    z.order(zero(), zero());
    z.signs(d);
    let q = z.over(d);
    zero::<R>().order(q, q);
    q.order(zero(), zero());
    zero::<R>().order(q, zero());
}

proof fn counts_are_positive<S: Single>(n: int)
    requires
        1 <= n <= u128::MAX,
    ensures
        one::<S::Wide>().at_most(wide::<S>(n)),
        zero::<S::Wide>().less(wide::<S>(n)),
        wide::<S>(n).finite(),
{
    <S::Wide as Double>::integers(n as u128);
    <S::Wide as Double>::integers(1);
    assert(<S::Wide as Double>::of_integer(1).at_most(wide::<S>(n)));
    <S::Wide as Real>::decimals(0, 1, 0);
    zero::<S::Wide>().order(one(), wide::<S>(n));
}

/// A cosine wave starts at its upper end, is never below its lower one, and is there
/// where the cosine of half the angle is zero.
pub proof fn annealing_falls_from_the_top<S: Single>(
    base_lr: S,
    eta_min: S,
    position: int,
    length: int,
)
    requires
        base_lr.finite(),
        lower_end(base_lr, eta_min),
        1 <= length <= u128::MAX,
    ensures
        annealed(base_lr, eta_min, 0, length).same(base_lr),
        is_number(annealed(base_lr, eta_min, position, length)) ==> eta_min.at_most(
            annealed(base_lr, eta_min, position, length),
        ),
        pi::<S>().times(wide::<S>(position)).over(wide::<S>(length)).over(
            <S::Wide as Real>::decimal(2, 0),
        ).cosine() == zero::<S::Wide>() ==> annealed(base_lr, eta_min, position, length).same(
            eta_min,
        ),
{
    let two = <S::Wide as Real>::decimal(2, 0);
    let (low, high) = (eta_min.widened(), base_lr.widened());
    let room = high.minus(low);
    zero_is_zero::<S>();
    zero_is_zero::<S::Wide>();
    eta_min.precisions(high);
    base_lr.precisions(high);
    low.signs(high);
    <S::Wide as Real>::decimals(0, 2, 0);
    counts_are_positive::<S>(length);
    pi_lies_between_three_and_four::<S>();
    <S::Wide as Double>::integers(0);
    nothing_taken(pi::<S>());
    let start = pi::<S>().times(zero());
    nothing_divided(start, wide::<S>(length));
    nothing_divided(start.over(wide::<S>(length)), two);
    let angle = start.over(wide::<S>(length)).over(two);
    angle.powers(angle);
    one::<S::Wide>().neutral(one());
    room.neutral(one());
    let here = pi::<S>().times(wide::<S>(position)).over(wide::<S>(length)).over(two).cosine();
    here.neutral(here);
    let weight = here.times(here);
    let part = room.times(weight);
    let sum = low.plus(part);
    if here == zero::<S::Wide>() {
        zero::<S::Wide>().neutral(zero());
        nothing_taken(zero::<S::Wide>());
        product_with_nothing(room, weight);
        nothing_added(low, part);
        eta_min.precisions(sum);
        sum.order(low, low);
        S::rounded(sum).order(eta_min, eta_min);
    }
    if is_number(S::rounded(sum)) {
        eta_min.precisions(sum);
        low.fused_operands(part, part);
        room.fused_operands(weight, weight);
        here.fused_operands(here, here);
        number_has_a_side(here);
        aligned_product(here, here);
        room.signs(weight);
        low.signs(part);
    }
}

/// A cosine schedule starts at the base learning rate, and gives no learning rate below
/// its lower end.
pub proof fn cosine_schedule_starts_at_the_base<S: Single>(
    schedule: CosineAnnealingLr<S>,
    step: usize,
    lr: S,
)
    requires
        CosineAnnealingLr::error(schedule.base_lr(), schedule.t_max(), schedule.eta_min()) is None,
        schedule.allows(step, lr),
    ensures
        step == 0 ==> lr.same(schedule.base_lr()),
        is_number(lr) ==> schedule.eta_min().at_most(lr),
{
    annealing_falls_from_the_top(
        schedule.base_lr(),
        schedule.eta_min(),
        step as int,
        schedule.t_max() as int,
    );
}

/// A schedule with restarts is back at the base learning rate at the start of every
/// cycle, and gives no learning rate below its lower end.
pub proof fn restarts_return_to_the_base<S: Single>(
    schedule: CosineAnnealingWarmRestarts<S>,
    step: usize,
    lr: S,
)
    requires
        CosineAnnealingWarmRestarts::error(
            schedule.base_lr(),
            schedule.t_0(),
            schedule.t_mult(),
            schedule.eta_min(),
        ) is None,
        schedule.allows(step, lr),
        cycle_of(step as nat, 0, schedule.t_0() as nat, schedule.t_mult() as nat).1 <= u128::MAX,
    ensures
        step == 0 || step == schedule.t_0() ==> lr.same(schedule.base_lr()),
        schedule.t_mult() == 1 && step % schedule.t_0() == 0 ==> lr.same(schedule.base_lr()),
        is_number(lr) ==> schedule.eta_min().at_most(lr),
{
    let (first, mult) = (schedule.t_0() as nat, schedule.t_mult() as nat);
    let (position, length) = cycle_of(step as nat, 0, first, mult);
    steps_lie_in_their_cycles(step as nat, 0, first, mult);
    if mult == 1 {
        equal_cycles(step as nat, 0, first);
    }
    if step == schedule.t_0() {
        assert(first * mult >= 1) by (nonlinear_arith)
            requires
                first >= 1,
                mult >= 1,
        ;
        reveal_with_fuel(cycle_of, 2);
    }
    annealing_falls_from_the_top(
        schedule.base_lr(),
        schedule.eta_min(),
        position as int,
        length as int,
    );
}

/// A rate that has not decayed is the base, one that has decayed once is the base times
/// gamma, and with a gamma of at most one no rate is above the base or below zero.
pub proof fn decay_starts_at_the_base<S: Single>(base_lr: S, gamma: S, exponent: int)
    requires
        positive(base_lr),
        positive(gamma),
        0 <= exponent <= u128::MAX,
    ensures
        decayed_rate(base_lr, gamma, 0) == base_lr,
        decayed_rate(base_lr, gamma, 1) == S::rounded(base_lr.widened().times(gamma.widened())),
        gamma.at_most(one()) ==> {
            &&& zero::<S>().at_most(decayed_rate(base_lr, gamma, exponent))
            &&& decayed_rate(base_lr, gamma, exponent).at_most(base_lr)
        },
{
    let high = base_lr.widened();
    let ratio = gamma.widened();
    let time = wide::<S>(exponent);
    zero_is_zero::<S>();
    zero_is_zero::<S::Wide>();
    zero::<S>().order(base_lr, base_lr);
    zero::<S>().order(gamma, gamma);
    <S::Wide as Double>::integers(exponent as u128);
    <S::Wide as Double>::integers(0);
    <S::Wide as Double>::integers(1);
    ratio.powers(time);
    high.neutral(one());
    base_lr.precisions(high);
    gamma.precisions(ratio);
    let power = ratio.raised(time);
    high.signs(power);
    high.neutral(power);
    zero::<S::Wide>().signs(high);
    base_lr.precisions(high.times(power));
    zero::<S>().precisions(high.times(power));
}

/// An exponential schedule starts at the base learning rate and stays at or below it
/// where gamma is at most one.
pub proof fn exponential_schedule_decays<S: Single>(
    schedule: ExponentialLr<S>,
    step: usize,
    lr: S,
)
    requires
        ExponentialLr::error(schedule.base_lr(), schedule.gamma()) is None,
        schedule.allows(step, lr),
    ensures
        step == 0 ==> lr == schedule.base_lr(),
        schedule.gamma().at_most(one()) ==> lr.at_most(schedule.base_lr()),
        schedule.gamma() == one::<S>() && step <= 1 ==> lr == schedule.base_lr(),
{
    decay_starts_at_the_base(schedule.base_lr(), schedule.gamma(), step as int);
    schedule.base_lr().widened().neutral(one());
    one::<S>().precisions(one());
    schedule.base_lr().precisions(one());
}

/// A schedule in stages has the base learning rate in the first stage, gamma times that
/// in the second one and the square of gamma times that in the third one, and the same
/// learning rate throughout a stage.
pub proof fn stages_are_level<S: Single>(
    schedule: StepLr<S>,
    step: usize,
    other: usize,
    lr: S,
)
    requires
        StepLr::error(schedule.base_lr(), schedule.step_size(), schedule.gamma()) is None,
        schedule.allows(step, lr),
    ensures
        step < schedule.step_size() ==> lr == schedule.base_lr(),
        schedule.step_size() <= step < 2 * schedule.step_size() ==> lr == schedule.base_lr().times(
            schedule.gamma(),
        ),
        2 * schedule.step_size() <= step < 3 * schedule.step_size() ==> lr
            == schedule.base_lr().times(schedule.gamma().times(schedule.gamma())),
        step / schedule.step_size() == other / schedule.step_size() ==> schedule.allows(other, lr),
        schedule.gamma() == one::<S>() && step < 2 * schedule.step_size() ==> lr
            == schedule.base_lr(),
{
    let size = schedule.step_size() as int;
    schedule.gamma().neutral(one());
    schedule.base_lr().neutral(one());
    if step < size {
        vstd::arithmetic::div_mod::lemma_basic_div(step as int, size);
    } else if step < 2 * size {
        vstd::arithmetic::div_mod::lemma_fundamental_div_mod_converse(
            step as int,
            size,
            1,
            step - size,
        );
    } else if step < 3 * size {
        vstd::arithmetic::div_mod::lemma_fundamental_div_mod_converse(
            step as int,
            size,
            2,
            step - 2 * size,
        );
    }
}

proof fn passed_grows(milestones: Seq<usize>, step: usize, later: usize, n: int)
    requires
        step <= later,
        0 <= n <= milestones.len(),
    ensures
        passed_of(milestones, step, n) <= passed_of(milestones, later, n) <= n,
        (forall|i: int| 0 <= i < n ==> step < milestones[i]) ==> passed_of(milestones, step, n)
            == 0,
        (forall|i: int| 0 <= i < n ==> milestones[i] <= step) ==> passed_of(milestones, step, n)
            == n,
    decreases n,
{
    if n > 0 {
        passed_grows(milestones, step, later, n - 1);
    }
}

/// A schedule with milestones has the base learning rate before the first one, and the
/// one of an exponential schedule at the number of milestones passed, which grows up to
/// the number of all of them.
pub proof fn milestones_count_the_decays<S: Single>(
    schedule: MultiStepLr<S>,
    step: usize,
    later: usize,
    lr: S,
)
    requires
        ExponentialLr::error(schedule.base_lr(), schedule.gamma()) is None,
        schedule.milestones().len() <= usize::MAX,
        schedule.allows(step, lr),
        step <= later,
    ensures
        (forall|i: int| 0 <= i < schedule.milestones().len() ==> step < schedule.milestones()[i])
            ==> lr == schedule.base_lr(),
        (forall|i: int| 0 <= i < schedule.milestones().len() ==> schedule.milestones()[i] <= step)
            ==> lr == decayed_rate(
            schedule.base_lr(),
            schedule.gamma(),
            schedule.milestones().len() as int,
        ),
        passed(schedule.milestones(), step) <= passed(schedule.milestones(), later)
            <= schedule.milestones().len(),
        schedule.gamma().at_most(one()) ==> lr.at_most(schedule.base_lr()),
{
    passed_grows(schedule.milestones(), step, later, schedule.milestones().len() as int);
    decay_starts_at_the_base(
        schedule.base_lr(),
        schedule.gamma(),
        passed(schedule.milestones(), step) as int,
    );
}

/// How far a warmup has come, as a part of the base learning rate.
spec fn warmth<S: Single>(schedule: LinearWarmupLr<S>, position: int) -> S::Wide {
    let start = schedule.start_factor().widened();
    let progress = wide::<S>(position).over(wide::<S>(schedule.warmup_steps() as int));
    start.plus(one::<S::Wide>().minus(start).times(progress))
}

spec fn warms_up<S: Single>(schedule: LinearWarmupLr<S>) -> bool {
    let steps = wide::<S>(schedule.warmup_steps() as int);
    &&& LinearWarmupLr::error(
        schedule.base_lr(),
        schedule.warmup_steps(),
        schedule.start_factor(),
    ) is None
    &&& steps.over(<S::Wide as Real>::decimal(2, 0)).less(steps)
}

proof fn warmth_is_a_part<S: Single>(schedule: LinearWarmupLr<S>, position: int)
    requires
        warms_up(schedule),
        0 <= position <= schedule.warmup_steps(),
    ensures
        in_unit_range(warmth(schedule, position)),
        schedule.start_factor().widened().at_most(warmth(schedule, position)),
        in_unit_range(schedule.start_factor().widened()),
        in_unit_range(
            wide::<S>(position).over(wide::<S>(schedule.warmup_steps() as int)),
        ),
        position == schedule.warmup_steps() ==> warmth(schedule, position) == one::<S::Wide>(),
        position == 0 ==> warmth(schedule, position).same(schedule.start_factor().widened()),
{
    let unit = one::<S::Wide>();
    let n = schedule.warmup_steps() as int;
    let steps = wide::<S>(n);
    let here = wide::<S>(position);
    let start = schedule.start_factor().widened();
    let rest = unit.minus(start);
    zero_is_zero::<S::Wide>();
    zero::<S>().order(schedule.start_factor(), schedule.start_factor());
    schedule.start_factor().precisions(start);
    start.unit_interval(start);
    counts_are_positive::<S>(n);
    <S::Wide as Double>::integers(position as u128);
    <S::Wide as Double>::integers(n as u128);
    assert(here.at_most(steps));
    let p = here.over(steps);
    here.signs(steps);
    steps.neutral(unit);
    unit.order(unit, unit);
    zero::<S::Wide>().order(p, unit);
    here.order(steps, steps);
    zero::<S::Wide>().order(p, unit);
    assert(in_unit_range(p));
    let part = rest.times(p);
    rest.unit_interval(p);
    rest.signs(p);
    rest.neutral(p);
    p.neutral(rest);
    start.signs(part);
    start.fused_operands(part, part);
    start.fused_operands(rest, rest);
    part.order(rest, start);
    start.neutral(part);
    start.neutral(rest);
    start.order(start.plus(part), unit);
    zero::<S::Wide>().order(start, start.plus(part));
    rest.neutral(unit);
    if position == 0 {
        nothing_divided(zero::<S::Wide>(), steps);
        nothing_taken(rest);
        same_factor(rest, p, zero());
        part.order(rest.times(zero()), zero());
        zero::<S::Wide>().order(rest.times(zero()), part);
        part.order(zero(), zero());
        nothing_added(start, part);
    }
}

/// Products with a number that is not negative keep two numbers equal.
proof fn same_factor<R: Real>(c: R, x: R, y: R)
    requires
        c.finite(),
        x.finite(),
        y.finite(),
        zero::<R>().at_most(c),
        x.same(y),
    ensures
        c.times(x).same(c.times(y)),
{
    x.order(y, c);
    y.order(x, c);
    c.fused_operands(x, x);
    c.fused_operands(y, y);
    c.neutral(x);
    c.neutral(y);
    x.neutral(c);
    y.neutral(c);
    c.times(x).order(c.times(y), c);
}

/// A warmup starts at the base learning rate times the start factor, never falls, never
/// exceeds the base learning rate, and reaches it at its end, unless the number of its
/// steps is beyond all numbers.
pub proof fn warmup_rises_to_the_base<S: Single>(
    schedule: LinearWarmupLr<S>,
    position: int,
    later: int,
)
    requires
        LinearWarmupLr::error(
            schedule.base_lr(),
            schedule.warmup_steps(),
            schedule.start_factor(),
        ) is None,
        0 <= position <= later <= schedule.warmup_steps(),
        ({
            let steps = wide::<S>(schedule.warmup_steps() as int);
            steps.over(<S::Wide as Real>::decimal(2, 0)).less(steps)
        }),
    ensures
        schedule.warmed(position).at_most(schedule.warmed(later)),
        schedule.warmed(position).at_most(schedule.base_lr()),
        schedule.warmed(schedule.warmup_steps() as int) == schedule.base_lr(),
        schedule.warmed(0).same(
            S::rounded(schedule.base_lr().widened().times(schedule.start_factor().widened())),
        ),
{
    let unit = one::<S::Wide>();
    let n = schedule.warmup_steps() as int;
    let steps = wide::<S>(n);
    let lr = schedule.base_lr();
    let base = lr.widened();
    let start = schedule.start_factor().widened();
    zero_is_zero::<S>();
    zero_is_zero::<S::Wide>();
    zero::<S>().order(lr, lr);
    warmth_is_a_part(schedule, position);
    warmth_is_a_part(schedule, later);
    warmth_is_a_part(schedule, n);
    warmth_is_a_part(schedule, 0);
    let (a, b) = (warmth(schedule, position), warmth(schedule, later));
    let (p, q) = (wide::<S>(position).over(steps), wide::<S>(later).over(steps));
    let rest = unit.minus(start);
    start.unit_interval(start);
    counts_are_positive::<S>(n);
    <S::Wide as Double>::integers(later as u128);
    assert(wide::<S>(position).at_most(wide::<S>(later)));
    p.order(p, p);
    q.order(q, q);
    wide::<S>(position).order(wide::<S>(later), steps);
    rest.fused_operands(p, p);
    rest.fused_operands(q, q);
    rest.neutral(p);
    rest.neutral(q);
    p.order(q, rest);
    a.order(a, a);
    b.order(b, b);
    rest.times(p).order(rest.times(q), start);
    start.neutral(rest.times(p));
    start.neutral(rest.times(q));
    lr.precisions(base);
    base.fused_operands(a, a);
    base.fused_operands(b, b);
    base.neutral(a);
    base.neutral(b);
    a.order(b, base);
    a.order(unit, base);
    base.neutral(unit);
    unit.neutral(base);
    lr.precisions(base.times(a));
    let first = warmth(schedule, 0);
    same_factor(base, first, start);
    let (c, d) = (base.times(first), base.times(start));
    c.order(d, d);
    lr.precisions(c);
    lr.precisions(d);
    S::rounded(c).order(S::rounded(d), lr);
}

/// A triangle wave starts at the base learning rate and reaches the largest one at its
/// peak, unless the number of rising steps is beyond all numbers. It gives no learning
/// rate below the base or above the largest one. It rises up to its peak and falls after
/// it.
pub proof fn triangle_wave_rises_and_falls<S: Single>(
    schedule: CyclicLr<S>,
    step: usize,
    later: usize,
    lr: S,
    lr_later: S,
)
    requires
        CyclicLr::error(
            schedule.base_lr(),
            schedule.max_lr(),
            schedule.step_size_up(),
            schedule.step_size_down(),
        ) is None,
        step <= later < schedule.step_size_up() + schedule.step_size_down(),
        schedule.allows(step, lr),
        schedule.allows(later, lr_later),
        is_number(lr),
        is_number(lr_later),
    ensures
        schedule.base_lr().at_most(lr),
        step == 0 ==> lr.same(schedule.base_lr()),
        ({
            let up = wide::<S>(schedule.step_size_up() as int);
            step == schedule.step_size_up() && up.over(<S::Wide as Real>::decimal(2, 0)).less(up)
        }) ==> lr.same(schedule.max_lr()),
        later <= schedule.step_size_up() ==> lr.at_most(lr_later),
        schedule.step_size_up() < step ==> lr_later.at_most(lr),
        ({
            let (up, down) = (
                wide::<S>(schedule.step_size_up() as int),
                wide::<S>(schedule.step_size_down() as int),
            );
            &&& up.over(<S::Wide as Real>::decimal(2, 0)).less(up)
            &&& down.over(<S::Wide as Real>::decimal(2, 0)).less(down)
        }) ==> lr.at_most(schedule.max_lr()),
{
    let unit = one::<S::Wide>();
    let (base, top) = (schedule.base_lr(), schedule.max_lr());
    let (low, high) = (base.widened(), top.widened());
    let room = high.minus(low);
    let (up, down) = (schedule.step_size_up() as int, schedule.step_size_down() as int);
    let total = up + down;
    vstd::arithmetic::div_mod::lemma_small_mod(step as nat, total as nat);
    vstd::arithmetic::div_mod::lemma_small_mod(later as nat, total as nat);
    zero_is_zero::<S>();
    zero_is_zero::<S::Wide>();
    zero::<S>().order(base, base);
    base.order(base, base);
    top.order(base, base);
    top.order(top, top);
    base.precisions(high);
    top.precisions(high);
    zero::<S::Wide>().order(low, low);
    low.signs(high);
    counts_are_positive::<S>(up);
    counts_are_positive::<S>(down);
    let (p, q) = (schedule.scale(step as int), schedule.scale(later as int));
    let (a, b) = (room.times(p), room.times(q));
    let (x, y) = (low.plus(a), low.plus(b));
    base.precisions(x);
    base.precisions(y);
    low.fused_operands(a, a);
    low.fused_operands(b, b);
    room.fused_operands(p, p);
    room.fused_operands(q, q);
    let (m, n) = (
        if step <= up { step as int } else { total - step },
        if later <= up { later as int } else { total - later },
    );
    <S::Wide as Double>::integers(m as u128);
    <S::Wide as Double>::integers(n as u128);
    wide::<S>(m).signs(wide::<S>(up));
    wide::<S>(m).signs(wide::<S>(down));
    room.signs(p);
    low.signs(a);
    if step == 0 {
        <S::Wide as Double>::integers(0);
        zero::<S::Wide>().neutral(zero());
        nothing_divided(zero::<S::Wide>(), wide::<S>(up));
        nothing_taken(room);
        same_factor(room, p, zero());
        a.order(room.times(zero()), zero());
        zero::<S::Wide>().order(room.times(zero()), a);
        a.order(zero(), zero());
        zero::<S::Wide>().order(a, zero());
        nothing_added(low, a);
        x.order(low, low);
        S::rounded(x).order(base, base);
    }
    wide::<S>(up).neutral(unit);
    room.neutral(unit);
    room.neutral(p);
    room.neutral(q);
    low.neutral(a);
    low.neutral(b);
    let side = if step <= up {
        up
    } else {
        down
    };
    if wide::<S>(side).over(<S::Wide as Real>::decimal(2, 0)).less(wide::<S>(side)) {
        <S::Wide as Double>::integers(side as u128);
        assert(wide::<S>(m).at_most(wide::<S>(side)));
        wide::<S>(side).neutral(unit);
        unit.order(unit, unit);
        p.order(p, p);
        wide::<S>(m).order(wide::<S>(side), wide::<S>(side));
        p.order(unit, room);
        unit.neutral(room);
        room.order(room, room);
        room.fused_operands(unit, unit);
        low.fused_operands(room, room);
        low.neutral(room);
        a.order(room, low);
        top.precisions(low.plus(room));
        base.precisions(x);
        S::rounded(low.plus(room)).order(top, top);
        S::rounded(x).order(S::rounded(low.plus(room)), top);
    }
    if later <= up {
        assert(wide::<S>(m).at_most(wide::<S>(n)));
        wide::<S>(m).order(wide::<S>(n), wide::<S>(up));
        p.order(q, room);
        a.order(b, low);
    }
    if up < step {
        assert(wide::<S>(n).at_most(wide::<S>(m)));
        wide::<S>(n).order(wide::<S>(m), wide::<S>(down));
        q.order(p, room);
        b.order(a, low);
    }
}

/// A phase starts at its first learning rate and ends at its last one, unless its length
/// is beyond all numbers. Before its start it has its first learning rate.
pub proof fn phases_lead_from_end_to_end<S: Single>(
    phase: OneCyclePhase<S>,
    strategy: OneCycleAnneal,
    start: S::Wide,
    step: S::Wide,
)
    requires
        start.finite(),
        phase.end_step.finite(),
        start.less(phase.end_step),
        phase.end_step.minus(start).finite(),
    ensures
        phase.rate(strategy, start, start) == S::rounded(phase.start_lr),
        ({
            let length = phase.end_step.minus(start);
            length.over(<S::Wide as Real>::decimal(2, 0)).less(length)
        }) ==> phase.rate(strategy, start, phase.end_step) == S::rounded(phase.end_lr),
        step.at_most(start) && is_number(step.minus(start).over(phase.end_step.minus(start)))
            ==> phase.rate(strategy, start, step) == S::rounded(phase.start_lr),
{
    let length = phase.end_step.minus(start);
    zero_is_zero::<S::Wide>();
    start.neutral(start);
    phase.end_step.signs(start);
    nothing_divided(zero::<S::Wide>(), length);
    let p = zero::<S::Wide>().over(length);
    p.order(zero(), zero());
    length.neutral(length);
    <S::Wide as Real>::decimals(0, 1, 0);
    zero::<S::Wide>().order(one(), one());
    one::<S::Wide>().order(one(), one());
    let way = step.minus(start);
    way.fused_operands(length, length);
    start.order(start, start);
    start.fused_operands(start, start);
    step.order(start, start);
    way.signs(length);
}

/// Along a straight line a phase keeps the order of its steps where it rises, turns it
/// around where it falls, and does not fall below its first learning rate where it rises.
pub proof fn straight_phases_keep_the_order<S: Single>(
    phase: OneCyclePhase<S>,
    start: S::Wide,
    step: S::Wide,
    later: S::Wide,
)
    requires
        zero::<S::Wide>().less(phase.end_step.minus(start)),
        zero::<S::Wide>().less(step.minus(start).over(phase.end_step.minus(start))),
        later.minus(start).over(phase.end_step.minus(start)).less(one()),
        step.at_most(later),
        is_number(step.minus(start)),
        is_number(later.minus(start)),
        is_number(phase.rate(OneCycleAnneal::Linear, start, step)),
        is_number(phase.rate(OneCycleAnneal::Linear, start, later)),
        is_number(S::rounded(phase.start_lr)),
    ensures
        phase.start_lr.at_most(phase.end_lr) && is_number(phase.end_lr.minus(phase.start_lr))
            && zero::<S::Wide>().at_most(phase.end_lr.minus(phase.start_lr)) ==> {
            &&& phase.rate(OneCycleAnneal::Linear, start, step).at_most(
                phase.rate(OneCycleAnneal::Linear, start, later),
            )
            &&& S::rounded(phase.start_lr).at_most(
                phase.rate(OneCycleAnneal::Linear, start, step),
            )
        },
        phase.end_lr.minus(phase.start_lr).at_most(zero()) ==> {
            &&& phase.rate(OneCycleAnneal::Linear, start, later).at_most(
                phase.rate(OneCycleAnneal::Linear, start, step),
            )
            &&& phase.rate(OneCycleAnneal::Linear, start, step).at_most(
                S::rounded(phase.start_lr),
            )
        },
{
    let unit = one::<S::Wide>();
    let length = phase.end_step.minus(start);
    let room = phase.end_lr.minus(phase.start_lr);
    let (u, v) = (step.minus(start), later.minus(start));
    let (p, q) = (u.over(length), v.over(length));
    let (a, b) = (room.times(p), room.times(q));
    let (x, y) = (a.plus(phase.start_lr), b.plus(phase.start_lr));
    zero::<S::Wide>().order(p, p);
    q.order(unit, unit);
    step.order(later, start);
    u.order(v, length);
    zero::<S::Wide>().order(p, q);
    p.order(q, unit);
    p.order(q, room);
    p.order(zero(), zero());
    q.order(zero(), zero());
    zero::<S::Wide>().order(q, q);
    p.order(unit, unit);
    phase.start_lr.order(phase.start_lr, phase.start_lr);
    zero::<S>().precisions(x);
    zero::<S>().precisions(y);
    zero::<S>().precisions(phase.start_lr);
    a.fused_operands(phase.start_lr, a);
    b.fused_operands(phase.start_lr, a);
    room.neutral(p);
    room.neutral(q);
    room.signs(p);
    a.order(b, phase.start_lr);
    b.order(a, phase.start_lr);
    phase.start_lr.signs(a);
    phase.start_lr.neutral(a);
}

/// Along a cosine wave the first learning rate of a phase is weighted by the square of the
/// cosine and the last one by that of the sine: where one of the two is one and the other
/// zero, the learning rate is at that end.
pub proof fn waves_weigh_both_ends<S: Single>(
    phase: OneCyclePhase<S>,
    start: S::Wide,
    step: S::Wide,
)
    requires
        phase.start_lr.finite(),
        phase.end_lr.finite(),
        zero::<S::Wide>().less(step.minus(start).over(phase.end_step.minus(start))),
        step.minus(start).over(phase.end_step.minus(start)).less(one()),
    ensures
        ({
            let p = step.minus(start).over(phase.end_step.minus(start));
            let angle = pi::<S>().times(p).over(<S::Wide as Real>::decimal(2, 0));
            let rate = phase.rate(OneCycleAnneal::Cos, start, step);
            &&& angle.cosine() == one::<S::Wide>() && angle.sine() == zero::<S::Wide>()
                ==> rate.same(S::rounded(phase.start_lr))
            &&& angle.cosine() == zero::<S::Wide>() && angle.sine() == one::<S::Wide>()
                ==> rate.same(S::rounded(phase.end_lr))
        }),
{
    let unit = one::<S::Wide>();
    let nothing = zero::<S::Wide>();
    let p = step.minus(start).over(phase.end_step.minus(start));
    let (a, b) = (phase.start_lr, phase.end_lr);
    zero_is_zero::<S::Wide>();
    nothing.order(p, p);
    p.order(unit, unit);
    unit.neutral(unit);
    nothing.neutral(nothing);
    a.neutral(unit);
    b.neutral(unit);
    nothing_taken(nothing);
    let none = nothing.times(nothing);
    product_with_nothing(a, none);
    product_with_nothing(b, none);
    nothing_added(a, b.times(none));
    nothing_added(b, a.times(none));
    one::<S>().precisions(a);
    one::<S>().precisions(b);
    one::<S>().precisions(a.plus(b.times(none)));
    one::<S>().precisions(a.times(none).plus(b));
    let (x, y) = (a.plus(b.times(none)), a.times(none).plus(b));
    x.order(a, a);
    y.order(b, b);
    S::rounded(x).order(S::rounded(a), one());
    S::rounded(y).order(S::rounded(b), one());
}

proof fn product_with_nothing<R: Real>(x: R, z: R)
    requires
        x.finite(),
        z.finite(),
        z.same(zero()),
    ensures
        x.times(z).same(zero()),
        x.times(z).finite(),
{
    zero_is_zero::<R>();
    z.order(zero(), zero());
    x.order(x, x);
    x.fused_operands(z, z);
    x.neutral(z);
    number_has_a_side(x);
    x.signs(z);
    z.signs(x);
    let y = x.times(z);
    zero::<R>().order(y, zero());
    y.order(zero(), zero());
}

/// The phases of a cycle follow one another without a jump, from the initial learning
/// rate up to the largest one and down to the smallest. The last one ends with the last
/// step.
pub proof fn phases_follow_one_another<S: Single>(config: OneCycleLrConfig<S>, i: int)
    requires
        0 <= i < config.phases().len(),
    ensures
        i + 1 < config.phases().len() ==> config.phases()[i].end_lr == config.phases()[i
            + 1].start_lr,
        config.phases()[0].start_lr == config.max_lr.widened().over(config.div_factor.widened()),
        config.phases()[0].end_lr == config.max_lr.widened(),
        config.phases().last().end_lr == config.phases()[0].start_lr.over(
            config.final_div_factor.widened(),
        ),
        config.phases().last().end_step == wide::<S>(config.total_steps as int).minus(one()),
        config.three_phase ==> config.phases().len() == 3 && config.phases()[1].end_lr
            == config.phases()[0].start_lr,
        !config.three_phase ==> config.phases().len() == 2,
        config.div_factor == one::<S>() ==> config.phases()[0].start_lr == config.max_lr.widened(),
{
    config.max_lr.widened().neutral(one());
    one::<S>().precisions(one());
}

/// In a sequence the first schedule has its own steps up to the first milestone, and each
/// further one starts anew at its milestone and has its own steps up to the next.
pub proof fn schedules_take_turns<S: Single>(
    sequence: SequentialLr<S>,
    turn: int,
    step: usize,
    lr: S,
)
    requires
        SequentialLr::<S>::error(sequence.schedulers().len(), sequence.milestones()) is None,
        0 <= turn < sequence.schedulers().len(),
        turn > 0 ==> sequence.milestones()[turn - 1] <= step,
        turn < sequence.milestones().len() ==> step < sequence.milestones()[turn],
    ensures
        turn == 0 ==> sequence.allows(step, lr) == sequence.schedulers()[0].allows(step, lr),
        turn > 0 ==> sequence.allows(step, lr) == sequence.schedulers()[turn].allows(
            (step - sequence.milestones()[turn - 1]) as usize,
            lr,
        ),
        turn > 0 && step == sequence.milestones()[turn - 1] ==> sequence.allows(step, lr)
            == sequence.schedulers()[turn].allows(0, lr),
{
    let milestones = sequence.milestones();
    assert forall|i: int| 0 <= i < turn && i < milestones.len() implies milestones[i] <= step by {
        if i < turn - 1 {
            assert(milestones[i] < milestones[turn - 1]);
        }
    }
    assert forall|i: int| turn <= i < milestones.len() implies milestones[i] > step by {
        if turn < i {
            assert(milestones[turn] < milestones[i]);
        }
    }
    passed_is_a_prefix(milestones, step, turn, milestones.len() as int);
}

} // verus!
