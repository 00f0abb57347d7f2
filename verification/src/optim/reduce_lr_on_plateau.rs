//! A learning rate that falls when a metric stops improving.
use crate::error::{AutodiffError, ErrorModel, tell, tell_two, told, told_two};
use crate::number::{
    Single, in_unit_range, is_non_negative, is_number, is_positive, non_negative, one, positive,
    zero,
};
use crate::optim::lr_scheduler::LrScheduler;
use crate::optim::direction::{zero_is_zero};
use vstd::prelude::*;

verus! {

/// Which way the metric improves.
#[derive(Debug, Clone, Copy, PartialEq, Eq, Structural)]
pub enum PlateauMode {
    /// A smaller metric is better.
    Min,
    /// A larger metric is better.
    Max,
}

/// How the threshold of an improvement is meant.
#[derive(Debug, Clone, Copy, PartialEq, Eq, Structural)]
pub enum ThresholdMode {
    /// As a part of the best metric.
    Rel,
    /// As a difference from the best metric.
    Abs,
}

/// Hyperparameters of [`ReduceLrOnPlateau`].
#[derive(Debug, Clone, Copy, PartialEq)]
pub struct ReduceLrOnPlateauConfig<S> {
    pub mode: PlateauMode,
    /// What the learning rate is multiplied by.
    pub factor: S,
    /// How many observations in a row may bring no improvement.
    pub patience: usize,
    pub threshold: S,
    pub threshold_mode: ThresholdMode,
    /// How many observations after a reduction are not counted.
    pub cooldown: usize,
    /// The learning rate does not fall below this.
    pub min_lr: S,
    /// A reduction that is not larger than this is not made.
    pub eps: S,
}

impl<S: Single> Default for ReduceLrOnPlateauConfig<S> {
    fn default() -> (r: Self)
        ensures
            r == (ReduceLrOnPlateauConfig {
                mode: PlateauMode::Min,
                factor: S::decimal(1, -1),
                patience: 10,
                threshold: S::decimal(1, -4),
                threshold_mode: ThresholdMode::Rel,
                cooldown: 0,
                min_lr: S::decimal(0, 0),
                eps: S::decimal(1, -8),
            }),
    {
        ReduceLrOnPlateauConfig {
            mode: PlateauMode::Min,
            factor: S::literal(1, -1),
            patience: 10,
            threshold: S::literal(1, -4),
            threshold_mode: ThresholdMode::Rel,
            cooldown: 0,
            min_lr: S::literal(0, 0),
            eps: S::literal(1, -8),
        }
    }
}

/// Why hyperparameters are refused, if they are.
pub open spec fn plateau_error<S: Single>(
    base_lr: S,
    config: ReduceLrOnPlateauConfig<S>,
) -> Option<ErrorModel> {
    if !positive(base_lr) {
        Some(told("base_lr は有限かつ正の値でなければならない: ", base_lr))
    } else if !(positive(config.factor) && config.factor.less(one())) {
        Some(told("factor は有限かつ (0, 1) の範囲でなければならない: ", config.factor))
    } else if !non_negative(config.threshold) {
        Some(told("threshold は有限かつ非負でなければならない: ", config.threshold))
    } else if !non_negative(config.min_lr) {
        Some(told("min_lr は有限かつ非負でなければならない: ", config.min_lr))
    } else if !non_negative(config.eps) {
        Some(told("eps は有限かつ非負でなければならない: ", config.eps))
    } else if base_lr.less(config.min_lr) {
        Some(told_two("min_lr（", config.min_lr, "）は base_lr（", base_lr, "）以下でなければならない"))
    } else {
        None
    }
}

/// A schedule as a mathematical value.
pub struct PlateauModel<S> {
    pub config: ReduceLrOnPlateauConfig<S>,
    pub lr: S,
    pub best: S,
    pub num_bad_epochs: usize,
    pub cooldown_counter: usize,
}

impl<S: Single> PlateauModel<S> {
    /// The learning rate is not below its minimum, no more observations without
    /// improvement are on record than the patience allows, and no more of the
    /// cooldown is left than the whole of it.
    pub open spec fn valid(self) -> bool {
        &&& non_negative(self.config.eps)
        &&& self.config.min_lr.at_most(self.lr)
        &&& self.num_bad_epochs <= self.config.patience
        &&& self.cooldown_counter <= self.config.cooldown
    }

    /// Whether a metric is an improvement over the best one so far.
    pub open spec fn is_better(self, metric: S) -> bool {
        let threshold = self.config.threshold;
        match (self.config.mode, self.config.threshold_mode) {
            (PlateauMode::Min, ThresholdMode::Rel) => metric.less(
                self.best.times(one::<S>().minus(threshold)),
            ),
            (PlateauMode::Min, ThresholdMode::Abs) => metric.less(self.best.minus(threshold)),
            (PlateauMode::Max, ThresholdMode::Rel) => self.best.times(
                one::<S>().plus(threshold),
            ).less(metric),
            (PlateauMode::Max, ThresholdMode::Abs) => self.best.plus(threshold).less(metric),
        }
    }

    /// How many observations in a row have brought no improvement, once a metric
    /// has been observed. Observations during a cooldown do not count.
    pub open spec fn bad_epochs_after(self, metric: S) -> int {
        if self.cooldown_counter > 0 || self.is_better(metric) {
            0
        } else {
            self.num_bad_epochs + 1
        }
    }

    /// Whether the observation of a metric makes the learning rate due for a
    /// reduction.
    pub open spec fn is_due(self, metric: S) -> bool {
        self.bad_epochs_after(metric) > self.config.patience
    }

    /// The learning rate after a reduction. A reduction that is too small is not
    /// made.
    pub open spec fn reduced_lr(self) -> S {
        let lower = self.lr.times(self.config.factor).larger(self.config.min_lr);
        if self.config.eps.less(self.lr.minus(lower)) {
            lower
        } else {
            self.lr
        }
    }

    /// The schedule after the observation of a metric.
    pub open spec fn observed(self, metric: S) -> PlateauModel<S> {
        PlateauModel {
            config: self.config,
            lr: if self.is_due(metric) {
                self.reduced_lr()
            } else {
                self.lr
            },
            best: if self.is_better(metric) {
                metric
            } else {
                self.best
            },
            num_bad_epochs: if self.is_due(metric) {
                0
            } else {
                self.bad_epochs_after(metric) as usize
            },
            cooldown_counter: if self.is_due(metric) {
                self.config.cooldown
            } else if self.cooldown_counter > 0 {
                (self.cooldown_counter - 1) as usize
            } else {
                0
            },
        }
    }
}

/// A learning rate that is reduced when a metric has not improved for some time.
pub struct ReduceLrOnPlateau<S: Single> {
    config: ReduceLrOnPlateauConfig<S>,
    lr: S,
    best: S,
    num_bad_epochs: usize,
    cooldown_counter: usize,
}

impl<S: Single> View for ReduceLrOnPlateau<S> {
    type V = PlateauModel<S>;

    closed spec fn view(&self) -> PlateauModel<S> {
        PlateauModel {
            config: self.config,
            lr: self.lr,
            best: self.best,
            num_bad_epochs: self.num_bad_epochs,
            cooldown_counter: self.cooldown_counter,
        }
    }
}

impl<S: Single> ReduceLrOnPlateau<S> {
    #[verifier::type_invariant]
    spec fn wf(&self) -> bool {
        self@.valid()
    }

    pub fn new(base_lr: S, config: ReduceLrOnPlateauConfig<S>) -> (r: Result<
        ReduceLrOnPlateau<S>,
        AutodiffError,
    >)
        ensures
            match r {
                Ok(schedule) => {
                    &&& plateau_error(base_lr, config) is None
                    &&& schedule@.valid()
                    &&& schedule@ == (PlateauModel {
                        config,
                        lr: base_lr,
                        best: match config.mode {
                            PlateauMode::Min => S::positive_infinity(),
                            PlateauMode::Max => S::positive_infinity().negated(),
                        },
                        num_bad_epochs: 0,
                        cooldown_counter: 0,
                    })
                },
                Err(e) => plateau_error(base_lr, config) == Some(e@),
            },
    {
        if !is_positive(base_lr) {
            return Err(tell("base_lr は有限かつ正の値でなければならない: ", base_lr));
        }
        if !(is_positive(config.factor) && config.factor.lt(S::literal(1, 0))) {
            return Err(tell("factor は有限かつ (0, 1) の範囲でなければならない: ", config.factor));
        }
        if !is_non_negative(config.threshold) {
            return Err(tell("threshold は有限かつ非負でなければならない: ", config.threshold));
        }
        if !is_non_negative(config.min_lr) {
            return Err(tell("min_lr は有限かつ非負でなければならない: ", config.min_lr));
        }
        if !is_non_negative(config.eps) {
            return Err(tell("eps は有限かつ非負でなければならない: ", config.eps));
        }
        if base_lr.lt(config.min_lr) {
            return Err(tell_two("min_lr（", config.min_lr, "）は base_lr（", base_lr, "）以下でなければならない"));
        }
        proof {
            base_lr.order(config.min_lr, config.min_lr);
            config.min_lr.order(config.min_lr, config.min_lr);
        }
        let best: S = match config.mode {
            PlateauMode::Min => S::infinity(),
            PlateauMode::Max => S::infinity().neg(),
        };
        Ok(
            ReduceLrOnPlateau {
                config,
                lr: base_lr,
                best,
                num_bad_epochs: 0,
                cooldown_counter: 0,
            },
        )
    }

    /// Observes a metric and returns the learning rate that is then in force, which
    /// is not above the one before. A metric that is not finite is refused and
    /// changes nothing.
    pub fn step(&mut self, metric: S) -> (r: Result<S, AutodiffError>)
        requires
            old(self)@.config.patience < usize::MAX || old(self)@.num_bad_epochs < usize::MAX,
        ensures
            match r {
                Ok(lr) => {
                    &&& metric.finite()
                    &&& final(self)@ == old(self)@.observed(metric)
                    &&& final(self)@.valid()
                    &&& lr == final(self)@.lr
                    &&& lr.at_most(old(self)@.lr)
                },
                Err(e) => {
                    &&& !metric.finite()
                    &&& e@ == told("metric は有限でなければならない: ", metric)
                    &&& final(self)@ == old(self)@
                },
            },
    {
        if !metric.is_finite() {
            return Err(tell("metric は有限でなければならない: ", metric));
        }
        proof {
            use_type_invariant(&*self);
        }
        let better: bool = self.is_better(metric);
        let mut num_bad_epochs: usize = 0;
        if !better {
            num_bad_epochs = self.num_bad_epochs + 1;
        }
        let mut cooldown_counter: usize = self.cooldown_counter;
        if cooldown_counter > 0 {
            cooldown_counter = cooldown_counter - 1;
            num_bad_epochs = 0;
        }
        let mut lr: S = self.lr;
        if num_bad_epochs > self.config.patience {
            let lower: S = self.lr.mul(self.config.factor).max(self.config.min_lr);
            if self.config.eps.lt(self.lr.sub(lower)) {
                lr = lower;
            }
            cooldown_counter = self.config.cooldown;
            num_bad_epochs = 0;
        }
        proof {
            observation_keeps_the_bounds(self@, metric);
        }
        self.lr = lr;
        if better {
            self.best = metric;
        }
        self.cooldown_counter = cooldown_counter;
        self.num_bad_epochs = num_bad_epochs;
        Ok(self.lr)
    }

    /// The learning rate in force.
    pub fn current_lr(&self) -> (r: S)
        ensures
            r == self@.lr,
    {
        self.lr
    }

    /// The best metric so far.
    pub fn best(&self) -> (r: S)
        ensures
            r == self@.best,
    {
        self.best
    }

    /// How many observations in a row have brought no improvement.
    pub fn num_bad_epochs(&self) -> (r: usize)
        ensures
            r == self@.num_bad_epochs,
    {
        self.num_bad_epochs
    }

    /// How many observations of the cooldown are left.
    pub fn cooldown_counter(&self) -> (r: usize)
        ensures
            r == self@.cooldown_counter,
    {
        self.cooldown_counter
    }

    fn is_better(&self, metric: S) -> (r: bool)
        ensures
            r == self@.is_better(metric),
    {
        let threshold: S = self.config.threshold;
        match (self.config.mode, self.config.threshold_mode) {
            (PlateauMode::Min, ThresholdMode::Rel) => metric.lt(
                self.best.mul(S::literal(1, 0).sub(threshold)),
            ),
            (PlateauMode::Min, ThresholdMode::Abs) => metric.lt(self.best.sub(threshold)),
            (PlateauMode::Max, ThresholdMode::Rel) => self.best.mul(
                S::literal(1, 0).add(threshold),
            ).lt(metric),
            (PlateauMode::Max, ThresholdMode::Abs) => self.best.add(threshold).lt(metric),
        }
    }
}

impl<S: Single> LrScheduler<S> for ReduceLrOnPlateau<S> {
    /// The step number makes no difference: only an observed metric changes the
    /// learning rate.
    open spec fn allows(&self, step: usize, lr: S) -> bool {
        lr == self@.lr
    }

    fn lr_at(&self, step: usize) -> (r: S) {
        self.current_lr()
    }
}

/// The schedule after the observation of some metrics in turn.
pub open spec fn observed_all<S: Single>(state: PlateauModel<S>, metrics: Seq<S>) -> PlateauModel<S>
    decreases metrics.len(),
{
    if metrics.len() == 0 {
        state
    } else {
        observed_all(state, metrics.drop_last()).observed(metrics.last())
    }
}

/// Whether no metric of a sequence is an improvement when its turn comes.
pub open spec fn none_improves<S: Single>(state: PlateauModel<S>, metrics: Seq<S>) -> bool {
    forall|i: int|
        0 <= i < metrics.len() ==> !(#[trigger] observed_all(state, metrics.take(i)).is_better(
            metrics[i],
        ))
}

/// As many observations without improvement as the patience allows leave the
/// learning rate as it is.
pub proof fn patience_keeps_the_learning_rate<S: Single>(
    state: PlateauModel<S>,
    metrics: Seq<S>,
)
    requires
        state.cooldown_counter == 0,
        state.num_bad_epochs == 0,
        metrics.len() <= state.config.patience,
        none_improves(state, metrics),
    ensures
        observed_all(state, metrics) == (PlateauModel {
            num_bad_epochs: metrics.len() as usize,
            ..state
        }),
    decreases metrics.len(),
{
    if metrics.len() > 0 {
        let front = metrics.drop_last();
        let n = metrics.len() - 1;
        assert(metrics.take(n) =~= front);
        assert forall|i: int| 0 <= i < front.len() implies !(#[trigger] observed_all(
            state,
            front.take(i),
        ).is_better(front[i])) by {
            assert(front.take(i) =~= metrics.take(i));
            assert(!observed_all(state, metrics.take(i)).is_better(metrics[i]));
        }
        patience_keeps_the_learning_rate(state, front);
        assert(!observed_all(state, metrics.take(n)).is_better(metrics[n]));
    }
}

/// One observation without improvement more than the patience allows reduces the
/// learning rate and starts the cooldown.
pub proof fn exhausted_patience_reduces_the_learning_rate<S: Single>(
    state: PlateauModel<S>,
    metrics: Seq<S>,
)
    requires
        state.cooldown_counter == 0,
        state.num_bad_epochs == 0,
        metrics.len() == state.config.patience + 1,
        none_improves(state, metrics),
    ensures
        observed_all(state, metrics) == (PlateauModel {
            lr: state.reduced_lr(),
            cooldown_counter: state.config.cooldown,
            ..state
        }),
{
    let front = metrics.drop_last();
    let n = metrics.len() - 1;
    assert(metrics.take(n) =~= front);
    assert forall|i: int| 0 <= i < front.len() implies !(#[trigger] observed_all(
        state,
        front.take(i),
    ).is_better(front[i])) by {
        assert(front.take(i) =~= metrics.take(i));
        assert(!observed_all(state, metrics.take(i)).is_better(metrics[i]));
    }
    patience_keeps_the_learning_rate(state, front);
    assert(!observed_all(state, metrics.take(n)).is_better(metrics[n]));
}

/// An observation keeps the learning rate between its minimum and what it was, and
/// the two counters within the patience and the cooldown.
pub proof fn observation_keeps_the_bounds<S: Single>(state: PlateauModel<S>, metric: S)
    requires
        state.valid(),
    ensures
        state.observed(metric).valid(),
        state.observed(metric).lr.at_most(state.lr),
{
    let lr = state.lr;
    let min_lr = state.config.min_lr;
    let lower = lr.times(state.config.factor).larger(min_lr);
    min_lr.order(lr, lr);
    min_lr.extremes(lr.times(state.config.factor));
    zero::<S>().order(state.config.eps, lr.minus(lower));
    lr.signs(lower);
    lower.order(lr, lr);
}

/// However many metrics are observed, the learning rate stays between its minimum
/// and where it started, and the two counters stay within the patience and the
/// cooldown.
pub proof fn observations_keep_the_bounds<S: Single>(state: PlateauModel<S>, metrics: Seq<S>)
    requires
        state.valid(),
    ensures
        observed_all(state, metrics).valid(),
        observed_all(state, metrics).config == state.config,
        state.config.min_lr.at_most(observed_all(state, metrics).lr),
        observed_all(state, metrics).lr.at_most(state.lr),
    decreases metrics.len(),
{
    if metrics.len() == 0 {
        state.config.min_lr.order(state.lr, state.lr);
    } else {
        let before = observed_all(state, metrics.drop_last());
        observations_keep_the_bounds(state, metrics.drop_last());
        observation_keeps_the_bounds(before, metrics.last());
        observed_all(state, metrics).lr.order(before.lr, state.lr);
    }
}

/// An improvement is better than the best metric so far in the direction of the mode: it
/// is below it where the metric should fall and above it where it should rise. What is
/// better still is an improvement too. With a threshold of zero nothing else is asked.
pub proof fn improvements_are_better<S: Single>(state: PlateauModel<S>, metric: S, other: S)
    requires
        non_negative(state.config.threshold),
        state.config.threshold.at_most(one()),
        state.best.finite(),
        state.config.threshold_mode == ThresholdMode::Rel ==> zero::<S>().at_most(state.best),
        is_number(state.best.plus(state.config.threshold)),
        is_number(state.best.minus(state.config.threshold)),
        is_number(state.best.times(one::<S>().plus(state.config.threshold))),
        one::<S>().plus(state.config.threshold).finite(),
    ensures
        state.config.mode == PlateauMode::Min ==> {
            &&& state.is_better(metric) ==> metric.less(state.best)
            &&& state.is_better(metric) && other.at_most(metric) ==> state.is_better(other)
            &&& state.config.threshold == zero::<S>() ==> state.is_better(metric) == metric.less(
                state.best,
            )
        },
        state.config.mode == PlateauMode::Max ==> {
            &&& state.is_better(metric) ==> state.best.less(metric)
            &&& state.is_better(metric) && metric.at_most(other) ==> state.is_better(other)
            &&& state.config.threshold == zero::<S>() ==> state.is_better(metric)
                == state.best.less(metric)
        },
        state.is_better(metric) ==> state.observed(metric).best == metric,
        !state.is_better(metric) ==> state.observed(metric).best == state.best,
{
    let best = state.best;
    let threshold = state.config.threshold;
    let rest = one::<S>().minus(threshold);
    let more = one::<S>().plus(threshold);
    zero_is_zero::<S>();
    best.order(best, best);
    threshold.unit_interval(threshold);
    one::<S>().signs(threshold);
    best.signs(rest);
    best.neutral(rest);
    best.neutral(one());
    one::<S>().neutral(one());
    best.signs(threshold);
    best.signs(more);
    let relative = best.times(rest);
    let absolute = best.minus(threshold);
    metric.order(relative, best);
    metric.order(absolute, best);
    other.order(metric, relative);
    other.order(metric, absolute);
    let raised = best.times(more);
    let added = best.plus(threshold);
    best.order(raised, metric);
    best.order(added, metric);
    S::decimals(0, 1, 0);
    zero::<S>().order(one(), one());
    one::<S>().order(zero(), zero());
    best.plus(zero()).order(best, metric);
    raised.order(metric, other);
    added.order(metric, other);
}

/// A reduction takes the learning rate to the factor times what it was, or to its minimum
/// where that is below, or leaves it where that would change too little: it never goes
/// below the factor times what it was.
pub proof fn reductions_go_by_the_factor<S: Single>(state: PlateauModel<S>)
    requires
        non_negative(state.lr),
        state.config.min_lr.at_most(state.lr),
        in_unit_range(state.config.factor),
    ensures
        ({
            let scaled = state.lr.times(state.config.factor);
            let reduced = state.reduced_lr();
            &&& scaled.at_most(reduced)
            &&& reduced.at_most(state.lr) || reduced == state.config.min_lr
            &&& reduced == scaled || reduced == state.config.min_lr || reduced == state.lr
            &&& state.config.min_lr.at_most(reduced)
            &&& state.config.min_lr.less(scaled) && state.config.eps.less(
                state.lr.minus(scaled),
            ) ==> reduced == scaled
        }),
{
    let lr = state.lr;
    let min_lr = state.config.min_lr;
    let scaled = lr.times(state.config.factor);
    let lower = scaled.larger(min_lr);
    lr.order(lr, lr);
    min_lr.order(lr, lr);
    lr.signs(state.config.factor);
    lr.neutral(state.config.factor);
    scaled.order(lr, lr);
    scaled.extremes(min_lr);
    min_lr.extremes(scaled);
    min_lr.order(scaled, scaled);
    scaled.order(min_lr, min_lr);
    min_lr.order(min_lr, min_lr);
    scaled.order(scaled, scaled);
}

} // verus!
