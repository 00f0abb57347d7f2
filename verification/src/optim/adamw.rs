//! Adam with weight decay that shrinks the parameter itself.
use crate::dict::StateDict;
use crate::error::{AutodiffError, ErrorModel, tell, told};
use crate::number::{
    Real, Single, fraction, in_unit_range, is_fraction, is_non_negative, is_number, is_positive,
    non_negative, one, positive, unit_range_is_closed, widened_fraction_in_unit_range, zero,
};
use crate::optim::adam::AdamModel;
use crate::optim::param_group::{
    ParamGroup, ParamGroupStep, SlotHparams, SlotwiseStep, answers, check_len_matches,
    resolve_slot_hparams, zip_params_grads,
};
use crate::optim::slots::{
    Cell2, Pair, Rule, Slot, SlotModel, accepted_step_is_aligned, advance, buffers_determine_slots,
    check_step, count_step, counted, export_slots, import_slots, inputs, moved_param, moved_params,
    next_slot, next_slots, repeated, slot_count_changed, slot_models, slots_data, start, started,
    step_error,
};
use crate::optim::state_dict::{
    DecodedState, Layout, OptimizerStateDict, StateModel, decode_state_dict, decoded_slots_fit,
    encode_state_dict, largest_step_count, restored, saved_state_is_restored, saves,
};
use crate::tensor::{Tensor, TensorModel};
use crate::optim::direction::{
    adaptive_step_descends, adaptive_step_lengths, against, average_between_its_ends,
    average_of_ones, average_of_squares, average_on_one_side, averages_are_ordered, corrected_rates,
    fading_average, root_corrections, shrunk_number, sided, squares_between_their_ends,
};
use vstd::prelude::*;

verus! {

/// Hyperparameters of [`AdamW`].
#[derive(Debug, Clone, Copy, PartialEq)]
pub struct AdamWConfig<S> {
    pub lr: S,
    pub beta1: S,
    pub beta2: S,
    pub eps: S,
    pub weight_decay: S,
}

impl<S: Single> Default for AdamWConfig<S> {
    fn default() -> (r: Self)
        ensures
            r == (AdamWConfig {
                lr: S::decimal(1, -3),
                beta1: S::decimal(9, -1),
                beta2: S::decimal(999, -3),
                eps: S::decimal(1, -8),
                weight_decay: S::decimal(1, -2),
            }),
    {
        AdamWConfig {
            lr: S::literal(1, -3),
            beta1: S::literal(9, -1),
            beta2: S::literal(999, -3),
            eps: S::literal(1, -8),
            weight_decay: S::literal(1, -2),
        }
    }
}

/// Why hyperparameters are refused, if they are.
pub open spec fn adamw_config_error<S: Single>(config: AdamWConfig<S>) -> Option<ErrorModel> {
    if !non_negative(config.lr) {
        Some(told("AdamW::new: lr must be finite and >= 0.0, got ", config.lr))
    } else if !fraction(config.beta1) {
        Some(told("AdamW::new: beta1 must be in [0.0, 1.0), got ", config.beta1))
    } else if !fraction(config.beta2) {
        Some(told("AdamW::new: beta2 must be in [0.0, 1.0), got ", config.beta2))
    } else if !positive(config.eps) {
        Some(told("AdamW::new: eps must be finite and > 0.0, got ", config.eps))
    } else if !non_negative(config.weight_decay) {
        Some(told("AdamW::new: weight_decay must be finite and >= 0.0, got ", config.weight_decay))
    } else {
        None
    }
}

/// What the elements of one slot go through in one step.
#[derive(Clone, Copy)]
pub struct AdamWRule<S> {
    pub beta1: S,
    pub beta2: S,
    pub eps: S,
    pub decay_factor: S,
    pub step_size: S,
    pub bias_correction2_sqrt: S,
}

impl<S: Single> Rule<S, Cell2<S>> for AdamWRule<S> {
    open spec fn moved(self, param: S, grad: S, cell: Cell2<S>) -> S {
        let Cell2(m, v) = self.next(param, grad, cell);
        param.times(self.decay_factor).minus(
            self.step_size.times(m).over(
                v.root().over(self.bias_correction2_sqrt).plus(self.eps),
            ),
        )
    }

    open spec fn next(self, param: S, grad: S, cell: Cell2<S>) -> Cell2<S> {
        let g = grad;
        Cell2(
            self.beta1.fused(cell.0, one::<S>().minus(self.beta1).times(g)),
            self.beta2.fused(cell.1, one::<S>().minus(self.beta2).times(g).times(g)),
        )
    }

    fn apply(&self, param: S, grad: S, cell: Cell2<S>) -> (r: (S, Cell2<S>)) {
        let unit: S = S::literal(1, 0);
        let g: S = grad;
        let m: S = self.beta1.mul_add(cell.0, unit.sub(self.beta1).mul(g));
        let v: S = self.beta2.mul_add(cell.1, unit.sub(self.beta2).mul(g).mul(g));
        let denom: S = v.sqrt().div(self.bias_correction2_sqrt).add(self.eps);
        (param.mul(self.decay_factor).sub(self.step_size.mul(m).div(denom)), Cell2(m, v))
    }
}

/// An [`AdamW`] optimizer as a mathematical value.
#[verifier::ext_equal]
pub struct AdamWModel<S: Single> {
    pub config: AdamWConfig<S>,
    pub step_count: u64,
    pub beta1_pow_t: S::Wide,
    pub beta2_pow_t: S::Wide,
    pub slots: Seq<SlotModel<Cell2<S>>>,
}

impl<S: Single> AdamWModel<S> {
    /// The rule of a slot in a step after which the decay rates have been
    /// multiplied up to the given powers.
    pub open spec fn rule(
        config: AdamWConfig<S>,
        beta1_pow_t: S::Wide,
        beta2_pow_t: S::Wide,
        hparams: SlotHparams<S>,
    ) -> AdamWRule<S> {
        AdamWRule {
            beta1: config.beta1,
            beta2: config.beta2,
            eps: config.eps,
            decay_factor: one::<S>().minus(hparams.lr.times(hparams.weight_decay)),
            step_size: S::rounded(
                hparams.lr.widened().over(one::<S::Wide>().minus(beta1_pow_t)),
            ),
            bias_correction2_sqrt: S::rounded(one::<S::Wide>().minus(beta2_pow_t).root()),
        }
    }

    /// One step.
    pub open spec fn stepped(
        self,
        pairs: Seq<Pair<S>>,
        hparams: Seq<SlotHparams<S>>,
    ) -> Result<(Seq<TensorModel<S>>, AdamWModel<S>), ErrorModel> {
        match step_error("AdamW", "m/v", self.slots, pairs) {
            Some(e) => Err(e),
            None => match counted(self.step_count) {
                Err(e) => Err(e),
                Ok(step_count) => {
                    let beta1_pow_t = self.beta1_pow_t.times(self.config.beta1.widened());
                    let beta2_pow_t = self.beta2_pow_t.times(self.config.beta2.widened());
                    let rules = Seq::new(
                        pairs.len(),
                        |i: int| Self::rule(self.config, beta1_pow_t, beta2_pow_t, hparams[i]),
                    );
                    let slots = started(self.slots, pairs, Cell2(zero::<S>(), zero::<S>()));
                    Ok(
                        (
                            moved_params(rules, pairs, slots),
                            AdamWModel {
                                config: self.config,
                                step_count,
                                beta1_pow_t,
                                beta2_pow_t,
                                slots: next_slots(rules, pairs, slots),
                            },
                        ),
                    )
                },
            },
        }
    }
}

/// A step leads against the gradient from the decayed element, where the first moment points the
/// same way. It still does after the step.
pub proof fn adamw_descends<S: Single>(rule: AdamWRule<S>, param: S, grad: S, cell: Cell2<S>)
    requires
        in_unit_range(rule.beta1),
        zero::<S>().at_most(rule.step_size),
        zero::<S>().less(rule.bias_correction2_sqrt),
        zero::<S>().less(rule.eps),
        sided(grad, cell.0),
        is_number(rule.moved(param, grad, cell)),
    ensures
        against(
            grad,
            param.times(rule.decay_factor),
            rule.moved(param, grad, cell),
        ),
        sided(grad, rule.next(param, grad, cell).0),
        is_number(grad),
{
    let g = grad;
    let start = param.times(rule.decay_factor);
    let next = rule.next(param, grad, cell);
    let d = next.1.root().over(rule.bias_correction2_sqrt).plus(rule.eps);
    let way = rule.step_size.times(next.0);
    start.fused_operands(way.over(d), d);
    way.fused_operands(d, d);
    rule.step_size.fused_operands(next.0, d);
    rule.beta1.fused_operands(cell.0, one::<S>().minus(rule.beta1).times(g));
    one::<S>().minus(rule.beta1).fused_operands(g, g);
    average_on_one_side(g, rule.beta1, cell.0, g);
    adaptive_step_descends(
        g,
        start,
        rule.step_size,
        next.0,
        next.1,
        rule.bias_correction2_sqrt,
        rule.eps,
    );
}

/// A larger epsilon and a larger second moment make a step shorter. A larger step size
/// and a larger correction of the second moment make it longer.
pub proof fn adamw_step_lengths<S: Single>(
    rule: AdamWRule<S>,
    param: S,
    grad: S,
    cell: Cell2<S>,
    other: S,
)
    requires
        in_unit_range(rule.beta1),
        in_unit_range(rule.beta2),
        zero::<S>().at_most(rule.step_size),
        zero::<S>().less(rule.bias_correction2_sqrt),
        zero::<S>().less(rule.eps),
        sided(grad, cell.0),
        is_number(rule.moved(param, grad, cell)),
    ensures
        ({
            let g = grad;
            let moved = rule.moved(param, grad, cell);
            let wider = (AdamWRule { eps: other, ..rule }).moved(param, grad, cell);
            let further = (AdamWRule { step_size: other, ..rule }).moved(param, grad, cell);
            let corrected = (AdamWRule { bias_correction2_sqrt: other, ..rule }).moved(
                param,
                grad,
                cell,
            );
            let larger = rule.moved(param, grad, Cell2(cell.0, other));
            &&& rule.eps.at_most(other) && is_number(wider) ==> against(g, wider, moved)
            &&& rule.step_size.at_most(other) && is_number(further) ==> against(g, moved, further)
            &&& rule.bias_correction2_sqrt.at_most(other) && is_number(corrected) ==> against(
                g,
                moved,
                corrected,
            )
            &&& cell.1.at_most(other) && is_number(larger) ==> against(g, larger, moved)
        }),
{
    let g = grad;
    let start = param.times(rule.decay_factor);
    let next = rule.next(param, grad, cell);
    let (m, v) = (next.0, next.1);
    let c = rule.bias_correction2_sqrt;
    adamw_descends(rule, param, grad, cell);
    adaptive_step_lengths(g, start, m, rule.step_size, v, c, rule.eps, other);
    let higher = rule.next(param, grad, Cell2(cell.0, other)).1;
    if cell.1.at_most(other) && is_number(rule.moved(param, grad, Cell2(cell.0, other))) {
        adaptive_step_descends(g, start, rule.step_size, m, higher, c, rule.eps);
        adaptive_step_descends(g, start, rule.step_size, m, v, c, rule.eps);
        averages_are_ordered(
            rule.beta2,
            cell.1,
            other,
            one::<S>().minus(rule.beta2).times(g).times(g),
        );
        adaptive_step_lengths(g, start, m, rule.step_size, v, c, rule.eps, higher);
    }
}

/// The moments are what they were where nothing is forgotten and the gradient and its
/// square where everything is, and stay one under gradients of one. Without a gradient, moments of
/// one fall to the decay rates. The second moment is not negative, and enters a step by
/// its root.
pub proof fn adamw_moments<S: Single>(rule: AdamWRule<S>, param: S, grad: S, cell: Cell2<S>)
    requires
        in_unit_range(rule.beta1),
        in_unit_range(rule.beta2),
        cell.0.finite(),
        cell.1.finite(),
        grad.finite(),
        grad.times(grad).finite(),
    ensures
        ({
            let g = grad;
            let next = rule.next(param, grad, cell);
            &&& rule.beta1 == zero::<S>() ==> next.0.same(g)
            &&& rule.beta1 == one::<S>() ==> next.0.same(cell.0)
            &&& rule.beta2 == zero::<S>() ==> next.1.same(g.times(g))
            &&& rule.beta2 == one::<S>() ==> next.1.same(cell.1)
            &&& cell == Cell2(one::<S>(), one::<S>()) && g == one::<S>() ==> next == Cell2(
                one::<S>(),
                one::<S>(),
            )
            &&& cell == Cell2(one::<S>(), one::<S>()) && g == zero::<S>() ==> next.0.same(
                rule.beta1,
            ) && next.1.same(rule.beta2)
            &&& zero::<S>().at_most(cell.1) && is_number(next.1) ==> zero::<S>().at_most(next.1)
            &&& rule.bias_correction2_sqrt == one::<S>() && next.1 == S::decimal(4, 0)
                ==> rule.moved(param, grad, cell) == param.times(rule.decay_factor).minus(
                rule.step_size.times(next.0).over(S::decimal(2, 0).plus(rule.eps)),
            )
            &&& rule.step_size == one::<S>() && rule.bias_correction2_sqrt == S::decimal(2, 0)
                && next.1.root() == S::decimal(4, 0) ==> rule.moved(param, grad, cell)
                == param.times(rule.decay_factor).minus(next.0.over(S::decimal(2, 0).plus(rule.eps)))
        }),
{
    let g = grad;
    let next = rule.next(param, grad, cell);
    average_between_its_ends(cell.0, g);
    squares_between_their_ends(cell.1, g);
    average_of_ones(rule.beta1);
    average_of_ones(rule.beta2);
    fading_average(rule.beta1);
    fading_average(rule.beta2);
    if zero::<S>().at_most(cell.1) && is_number(next.1) {
        average_of_squares(rule.beta2, cell.1, g);
    }
    one::<S>().neutral(next.0);
    next.0.neutral(one());
    S::decimal(2, 0).neutral(one());
}

/// The step size is at least the learning rate, and is it once the first decay rate has
/// died away; until then it falls from step to step, as the power of the decay rate
/// does. The correction of the second moment lies from zero to one, is one in the long
/// run, and rises until then.
pub proof fn adamw_corrections_die_away<S: Single>(
    config: AdamWConfig<S>,
    hparams: SlotHparams<S>,
    beta1_pow_t: S::Wide,
    beta2_pow_t: S::Wide,
    later1: S::Wide,
    later2: S::Wide,
)
    requires
        non_negative(hparams.lr),
        fraction(beta1_pow_t),
        fraction(beta2_pow_t),
        fraction(later1),
        fraction(later2),
        later1.at_most(beta1_pow_t),
        later2.at_most(beta2_pow_t),
    ensures
        ({
            let rule = AdamWModel::rule(config, beta1_pow_t, beta2_pow_t, hparams);
            let later = AdamWModel::rule(config, later1, later2, hparams);
            &&& hparams.lr.at_most(rule.step_size)
            &&& beta1_pow_t == zero::<S::Wide>() ==> rule.step_size == hparams.lr
            &&& later.step_size.at_most(rule.step_size)
            &&& in_unit_range(rule.bias_correction2_sqrt)
            &&& beta2_pow_t == zero::<S::Wide>() ==> rule.bias_correction2_sqrt == one::<S>()
            &&& rule.bias_correction2_sqrt.at_most(later.bias_correction2_sqrt)
            &&& one::<S::Wide>().minus(beta2_pow_t) == <S::Wide as Real>::decimal(25, -2)
                ==> rule.bias_correction2_sqrt == S::rounded(<S::Wide as Real>::decimal(5, -1))
            &&& rule.beta1 == config.beta1 && rule.beta2 == config.beta2 && rule.eps == config.eps
        }),
{
    corrected_rates(hparams.lr, beta1_pow_t, later1);
    unit_range_is_closed(beta2_pow_t, one());
    unit_range_is_closed(later2, one());
    root_corrections::<S>(beta2_pow_t, later2);
}

/// Decay draws an element towards zero before the step and does not touch the moments.
pub proof fn adamw_decay_shrinks<S: Single>(
    config: AdamWConfig<S>,
    hparams: SlotHparams<S>,
    beta1_pow_t: S::Wide,
    beta2_pow_t: S::Wide,
    param: S,
)
    requires
        in_unit_range(hparams.lr.times(hparams.weight_decay)),
        is_number(
            param.times(
                AdamWModel::rule(config, beta1_pow_t, beta2_pow_t, hparams).decay_factor,
            ),
        ),
    ensures
        ({
            let rule = AdamWModel::rule(config, beta1_pow_t, beta2_pow_t, hparams);
            &&& sided(param, param.times(rule.decay_factor))
            &&& against(param, param, param.times(rule.decay_factor))
            &&& hparams.weight_decay == zero::<S>() && hparams.lr.finite() ==> param.times(
                rule.decay_factor,
            ) == param
            &&& hparams.weight_decay == one::<S>() ==> rule.decay_factor == one::<S>().minus(
                hparams.lr,
            )
            &&& hparams.lr == one::<S>() ==> rule.decay_factor == one::<S>().minus(
                hparams.weight_decay,
            )
        }),
{
    shrunk_number(param, hparams.lr.times(hparams.weight_decay));
    hparams.lr.neutral(zero());
    hparams.lr.neutral(one());
    hparams.weight_decay.neutral(one());
    one::<S>().neutral(hparams.weight_decay);
    param.neutral(one());
}

/// The powers of the decay rates start at one: the first step multiplies them up to the
/// decay rates themselves. Every step counts.
pub proof fn adamw_powers_start_with_the_decay_rates<S: Single>(
    optimizer: AdamWModel<S>,
    pairs: Seq<Pair<S>>,
    hparams: Seq<SlotHparams<S>>,
)
    requires
        optimizer.stepped(pairs, hparams) is Ok,
    ensures
        optimizer.stepped(pairs, hparams) matches Ok((_, next)) && {
            &&& next.step_count == optimizer.step_count + 1
            &&& next.config == optimizer.config
            &&& optimizer.beta1_pow_t == one::<S::Wide>() ==> next.beta1_pow_t
                == optimizer.config.beta1.widened()
            &&& optimizer.beta2_pow_t == one::<S::Wide>() ==> next.beta2_pow_t
                == optimizer.config.beta2.widened()
            &&& optimizer.config.beta1 == one::<S>() ==> next.beta1_pow_t == optimizer.beta1_pow_t
            &&& optimizer.config.beta2 == one::<S>() ==> next.beta2_pow_t == optimizer.beta2_pow_t
        },
{
    let (a, b) = (optimizer.config.beta1.widened(), optimizer.config.beta2.widened());
    a.neutral(one());
    b.neutral(one());
    one::<S::Wide>().neutral(a);
    one::<S::Wide>().neutral(b);
    optimizer.beta1_pow_t.neutral(one());
    optimizer.beta2_pow_t.neutral(one());
    one::<S>().precisions(one());
}

/// The AdamW optimizer.
pub struct AdamW<S: Single> {
    config: AdamWConfig<S>,
    step_count: u64,
    beta1_pow_t: S::Wide,
    beta2_pow_t: S::Wide,
    slots: Vec<Slot<Cell2<S>>>,
}

impl<S: Single> View for AdamW<S> {
    type V = AdamWModel<S>;

    closed spec fn view(&self) -> AdamWModel<S> {
        AdamWModel {
            config: self.config,
            step_count: self.step_count,
            beta1_pow_t: self.beta1_pow_t,
            beta2_pow_t: self.beta2_pow_t,
            slots: slot_models(self.slots@),
        }
    }
}

impl<S: Single> AdamW<S> {
    #[verifier::type_invariant]
    spec fn wf(&self) -> bool {
        &&& fraction(self.config.beta1)
        &&& fraction(self.config.beta2)
        &&& in_unit_range(self.beta1_pow_t)
        &&& in_unit_range(self.beta2_pow_t)
    }

    /// An optimizer that has taken no step.
    pub fn new(config: AdamWConfig<S>) -> (r: Result<AdamW<S>, AutodiffError>)
        ensures
            match r {
                Ok(optimizer) => {
                    &&& adamw_config_error(config) is None
                    &&& optimizer@ == (AdamWModel {
                        config,
                        step_count: 0,
                        beta1_pow_t: one(),
                        beta2_pow_t: one(),
                        slots: Seq::empty(),
                    })
                },
                Err(e) => adamw_config_error(config) == Some(e@),
            },
    {
        if !is_non_negative(config.lr) {
            return Err(tell("AdamW::new: lr must be finite and >= 0.0, got ", config.lr));
        }
        if !is_fraction(config.beta1) {
            return Err(tell("AdamW::new: beta1 must be in [0.0, 1.0), got ", config.beta1));
        }
        if !is_fraction(config.beta2) {
            return Err(tell("AdamW::new: beta2 must be in [0.0, 1.0), got ", config.beta2));
        }
        if !is_positive(config.eps) {
            return Err(tell("AdamW::new: eps must be finite and > 0.0, got ", config.eps));
        }
        if !is_non_negative(config.weight_decay) {
            return Err(
                tell(
                    "AdamW::new: weight_decay must be finite and >= 0.0, got ",
                    config.weight_decay,
                ),
            );
        }
        proof {
            unit_range_is_closed(one::<S::Wide>(), one());
        }
        let r = AdamW {
            config,
            step_count: 0,
            beta1_pow_t: <S::Wide as Real>::literal(1, 0),
            beta2_pow_t: <S::Wide as Real>::literal(1, 0),
            slots: Vec::new(),
        };
        assert(r@.slots =~= Seq::empty());
        Ok(r)
    }

    pub fn config(&self) -> (r: &AdamWConfig<S>)
        ensures
            *r == self@.config,
    {
        &self.config
    }

    /// The number of steps taken.
    pub fn step_count(&self) -> (r: u64)
        ensures
            r == self@.step_count,
    {
        self.step_count
    }

    /// Replaces the learning rate and leaves everything else as it is.
    pub fn set_lr(&mut self, new_lr: S) -> (r: Result<(), AutodiffError>)
        ensures
            match r {
                Ok(_) => {
                    &&& non_negative(new_lr)
                    &&& final(self)@ == (AdamWModel {
                        config: AdamWConfig { lr: new_lr, ..old(self)@.config },
                        ..old(self)@
                    })
                },
                Err(e) => {
                    &&& !non_negative(new_lr)
                    &&& e@ == told("AdamW::set_lr: lr must be finite and >= 0.0, got ", new_lr)
                    &&& final(self)@ == old(self)@
                },
            },
    {
        if !is_non_negative(new_lr) {
            return Err(tell("AdamW::set_lr: lr must be finite and >= 0.0, got ", new_lr));
        }
        proof {
            use_type_invariant(&*self);
        }
        self.config.lr = new_lr;
        Ok(())
    }

    /// One step with the configured learning rate and weight decay. Returns the
    /// parameters after the step, in the order in which they were given.
    pub fn step(&mut self, params_and_grads: &[(&Tensor<S>, &Tensor<S>)]) -> (r: Result<
        Vec<Tensor<S>>,
        AutodiffError,
    >)
        ensures
            answers(
                r,
                old(self)@.stepped(
                    inputs(params_and_grads@),
                    Seq::new(
                        params_and_grads@.len(),
                        |i: int|
                            SlotHparams {
                                lr: old(self)@.config.lr,
                                weight_decay: old(self)@.config.weight_decay,
                            },
                    ),
                ),
                old(self)@,
                final(self)@,
            ),
    {
        let hparams: Vec<SlotHparams<S>> = repeated(
            SlotHparams { lr: self.config.lr, weight_decay: self.config.weight_decay },
            params_and_grads.len(),
        );
        self.step_with_slot_hparams(params_and_grads, &hparams)
    }

    /// One step with a learning rate and a weight decay for each slot.
    pub fn step_with_slot_hparams(
        &mut self,
        params_and_grads: &[(&Tensor<S>, &Tensor<S>)],
        hparams: &Vec<SlotHparams<S>>,
    ) -> (r: Result<Vec<Tensor<S>>, AutodiffError>)
        requires
            hparams@.len() == params_and_grads@.len(),
        ensures
            answers(
                r,
                old(self)@.stepped(inputs(params_and_grads@), hparams@),
                old(self)@,
                final(self)@,
            ),
    {
        match check_step("AdamW", "m/v", &self.slots, params_and_grads) {
            Err(e) => {
                return Err(e);
            },
            Ok(_) => {},
        }
        let step_count: u64 = match count_step(self.step_count) {
            Err(e) => {
                return Err(e);
            },
            Ok(step_count) => step_count,
        };
        let unit: S::Wide = <S::Wide as Real>::literal(1, 0);
        let beta1_pow_t: S::Wide = self.beta1_pow_t.mul(self.config.beta1.widen());
        let beta2_pow_t: S::Wide = self.beta2_pow_t.mul(self.config.beta2.widen());
        let bias_correction1: S::Wide = unit.sub(beta1_pow_t);
        let bias_correction2_sqrt: S = S::round(unit.sub(beta2_pow_t).sqrt());
        let mut rules: Vec<AdamWRule<S>> = Vec::new();
        let mut i: usize = 0;
        while i < hparams.len()
            invariant
                i <= hparams@.len(),
                rules@.len() == i,
                bias_correction1 == one::<S::Wide>().minus(beta1_pow_t),
                bias_correction2_sqrt == S::rounded(one::<S::Wide>().minus(beta2_pow_t).root()),
                forall|k: int|
                    0 <= k < i ==> #[trigger] rules@[k] == AdamWModel::rule(
                        self.config,
                        beta1_pow_t,
                        beta2_pow_t,
                        hparams@[k],
                    ),
            decreases hparams@.len() - i,
        {
            rules.push(
                AdamWRule {
                    beta1: self.config.beta1,
                    beta2: self.config.beta2,
                    eps: self.config.eps,
                    decay_factor: S::literal(1, 0).sub(hparams[i].lr.mul(hparams[i].weight_decay)),
                    step_size: S::round(hparams[i].lr.widen().div(bias_correction1)),
                    bias_correction2_sqrt,
                },
            );
            i = i + 1;
        }
        let blank = Cell2(S::literal(0, 0), S::literal(0, 0));
        proof {
            accepted_step_is_aligned(
                "AdamW",
                "m/v",
                slot_models(self.slots@),
                inputs(params_and_grads@),
                blank,
            );
            assert(rules@ =~= Seq::new(
                inputs(params_and_grads@).len(),
                |k: int| AdamWModel::rule(self.config, beta1_pow_t, beta2_pow_t, hparams@[k]),
            ));
        }
        let slots: Vec<Slot<Cell2<S>>> = start(&self.slots, params_and_grads, blank);
        let (params, next) = advance(&rules, params_and_grads, &slots);
        proof {
            use_type_invariant(&*self);
            widened_fraction_in_unit_range(self.config.beta1);
            unit_range_is_closed(self.beta1_pow_t, self.config.beta1.widened());
            widened_fraction_in_unit_range(self.config.beta2);
            unit_range_is_closed(self.beta2_pow_t, self.config.beta2.widened());
        }
        self.step_count = step_count;
        self.beta1_pow_t = beta1_pow_t;
        self.beta2_pow_t = beta2_pow_t;
        self.slots = next;
        Ok(params)
    }
}

impl<S: Single> SlotwiseStep<S> for AdamW<S> {
    open spec fn name() -> Seq<char> {
        "AdamW"@
    }

    open spec fn default_hparams(state: AdamWModel<S>) -> SlotHparams<S> {
        SlotHparams { lr: state.config.lr, weight_decay: state.config.weight_decay }
    }

    open spec fn stepped(
        state: AdamWModel<S>,
        pairs: Seq<Pair<S>>,
        hparams: Seq<SlotHparams<S>>,
    ) -> Result<(Seq<TensorModel<S>>, AdamWModel<S>), ErrorModel> {
        state.stepped(pairs, hparams)
    }
}

impl<S: Single> ParamGroupStep<S> for AdamW<S> {
    fn step_with_groups(
        &mut self,
        params: &[&Tensor<S>],
        grads: &[&Tensor<S>],
        groups: &[ParamGroup<S>],
    ) -> (r: Result<Vec<Tensor<S>>, AutodiffError>) {
        match check_len_matches("AdamW", params, grads) {
            Err(e) => {
                return Err(e);
            },
            Ok(_) => {},
        }
        let hparams: Vec<SlotHparams<S>> = match resolve_slot_hparams(
            groups,
            params.len(),
            self.config.lr,
            self.config.weight_decay,
            "AdamW",
        ) {
            Err(e) => {
                return Err(e);
            },
            Ok(hparams) => hparams,
        };
        let pairs: Vec<(&Tensor<S>, &Tensor<S>)> = zip_params_grads(params, grads);
        self.step_with_slot_hparams(pairs.as_slice(), &hparams)
    }
}

impl<S: Single> OptimizerStateDict<S> for AdamW<S> {
    open spec fn layout() -> Layout {
        Layout {
            kind: "adamw"@,
            buffers: seq!["m"@, "v"@],
            has_beta1: true,
            has_beta2: true,
            has_mu_product: false,
        }
    }

    open spec fn accumulated(&self) -> StateModel<S> {
        StateModel {
            step_count: self@.step_count,
            beta1_pow_t: Some(self@.beta1_pow_t),
            beta2_pow_t: Some(self@.beta2_pow_t),
            mu_product: None,
            slots: slots_data(self@.slots),
        }
    }

    open spec fn same_settings(&self, other: &Self) -> bool {
        self@.config == other@.config
    }

    fn state_dict(&self) -> (r: Result<StateDict<S>, AutodiffError>) {
        let names: [&str; 2] = ["m", "v"];
        proof {
            use_type_invariant(self);
            reveal_strlit("m");
            reveal_strlit("v");
            assert("m"@[0] != "v"@[0]);
            assert(names@.map_values(|name: &str| name@) =~= Self::layout().buffers);
        }
        let state = DecodedState {
            step_count: self.step_count,
            beta1_pow_t: Some(self.beta1_pow_t),
            beta2_pow_t: Some(self.beta2_pow_t),
            mu_product: None,
            slots: export_slots(&self.slots),
        };
        assert(state@ =~= self.accumulated());
        Ok(encode_state_dict("adamw", &names, &state))
    }

    fn load_state_dict(&mut self, state: StateDict<S>) -> (r: Result<(), AutodiffError>) {
        let names: [&str; 2] = ["m", "v"];
        assert(names@.map_values(|name: &str| name@) =~= Self::layout().buffers);
        match decode_state_dict("adamw", &state, &names, true, true, false) {
            Err(e) => Err(e),
            Ok(decoded) => {
                proof {
                    use_type_invariant(&*self);
                    decoded_slots_fit(state@, Self::layout(), decoded);
                }
                self.step_count = decoded.step_count;
                match decoded.beta1_pow_t {
                    Some(value) => {
                        self.beta1_pow_t = value;
                    },
                    None => {},
                }
                match decoded.beta2_pow_t {
                    Some(value) => {
                        self.beta2_pow_t = value;
                    },
                    None => {},
                }
                self.slots = import_slots(&decoded.slots);
                assert(self.accumulated() =~= decoded@);
                Ok(())
            },
        }
    }
}

/// An optimizer that takes over a saved state is in all respects like the one that
/// saved it, if both have the same settings. The state is accepted unless the
/// counter of steps is at its end, where no further step could be counted.
pub proof fn adamw_resumes_from_its_saved_state<S: Single>(
    saved: AdamW<S>,
    dict: StateDict<S>,
    resumed: AdamW<S>,
)
    requires
        saves(dict@, AdamW::<S>::layout(), saved.accumulated()),
        saved@.step_count <= largest_step_count(false),
        resumed.same_settings(&saved),
    ensures
        restored(dict@, AdamW::<S>::layout()) == Ok::<_, ErrorModel>(saved.accumulated()),
        restored(dict@, AdamW::<S>::layout()) == Ok::<_, ErrorModel>(resumed.accumulated())
            ==> resumed@ == saved@,
{
    reveal_strlit("m");
    reveal_strlit("v");
    assert("m"@[0] != "v"@[0]);
    dict.entries_are_countable();
    saved_state_is_restored(dict@, AdamW::<S>::layout(), saved.accumulated());
    if resumed.accumulated() == saved.accumulated() {
        buffers_determine_slots::<S, _>(resumed@.slots, saved@.slots);
    }
}

/// Whether an optimizer and one of kind [`Adam`] have the same decay rates and
/// constants and have accumulated the same.
pub open spec fn like_adam<S: Single>(adamw: AdamWModel<S>, adam: AdamModel<S>) -> bool {
    &&& adam.config.beta1 == adamw.config.beta1
    &&& adam.config.beta2 == adamw.config.beta2
    &&& adam.config.eps == adamw.config.eps
    &&& adam.step_count == adamw.step_count
    &&& adam.beta1_pow_t == adamw.beta1_pow_t
    &&& adam.beta2_pow_t == adamw.beta2_pow_t
    &&& adam.slots == adamw.slots
}

/// Whether each of `n` slots has a finite learning rate and no weight decay.
pub open spec fn without_decay<S: Single>(hparams: Seq<SlotHparams<S>>, n: nat) -> bool {
    &&& hparams.len() == n
    &&& forall|i: int|
        0 <= i < hparams.len() ==> (#[trigger] hparams[i]).weight_decay == zero::<S>()
            && hparams[i].lr.finite()
}

/// Whether a step and one of kind [`Adam`] are refused for the same reason. Only the
/// error of a changed number of slots names the kind of the optimizer.
pub open spec fn refused_alike(
    slots: nat,
    given: nat,
    adamw: ErrorModel,
    adam: ErrorModel,
) -> bool {
    if slots > 0 && given != slots {
        &&& adamw == slot_count_changed("AdamW", "m/v", slots, given)
        &&& adam == slot_count_changed("Adam", "m/v", slots, given)
    } else {
        adamw == adam
    }
}

/// Without weight decay a step is a step of [`Adam`]: it gives the same parameters
/// or is refused for the same reason, and leaves both optimizers alike again.
pub proof fn step_without_decay_is_a_step_of_adam<S: Single>(
    adamw: AdamWModel<S>,
    adam: AdamModel<S>,
    pairs: Seq<Pair<S>>,
    hparams: Seq<SlotHparams<S>>,
)
    requires
        like_adam(adamw, adam),
        without_decay(hparams, pairs.len()),
    ensures
        match (adamw.stepped(pairs, hparams), adam.stepped(pairs, hparams)) {
            (Ok((a, next_a)), Ok((b, next_b))) => {
                &&& a == b
                &&& like_adam(next_a, next_b)
            },
            (Err(a), Err(b)) => refused_alike(adamw.slots.len(), pairs.len(), a, b),
            _ => false,
        },
{
    if step_error("AdamW", "m/v", adamw.slots, pairs) is None && counted(adamw.step_count) is Ok {
        let beta1_pow_t = adamw.beta1_pow_t.times(adamw.config.beta1.widened());
        let beta2_pow_t = adamw.beta2_pow_t.times(adamw.config.beta2.widened());
        let slots = started(adamw.slots, pairs, Cell2(zero::<S>(), zero::<S>()));
        let ours = Seq::new(
            pairs.len(),
            |i: int| AdamWModel::rule(adamw.config, beta1_pow_t, beta2_pow_t, hparams[i]),
        );
        let theirs = Seq::new(
            pairs.len(),
            |i: int| AdamModel::rule(adam.config, beta1_pow_t, beta2_pow_t, hparams[i]),
        );
        assert forall|i: int| 0 <= i < pairs.len() implies moved_param(
            ours[i],
            pairs[i],
            slots[i],
        ) == moved_param(theirs[i], pairs[i], slots[i]) && next_slot(ours[i], pairs[i], slots[i])
            == next_slot(theirs[i], pairs[i], slots[i]) by {
            assert(hparams[i].weight_decay == zero::<S>());
            hparams[i].lr.neutral(zero());
            assert forall|p: S, g: S, c: Cell2<S>| #[trigger]
                ours[i].next(p, g, c) == theirs[i].next(p, g, c) by {}
            assert forall|p: S, g: S, c: Cell2<S>| #[trigger]
                ours[i].moved(p, g, c) == theirs[i].moved(p, g, c) by {
                assert(ours[i].next(p, g, c) == theirs[i].next(p, g, c));
                p.neutral(zero());
            }
            assert(moved_param(ours[i], pairs[i], slots[i]) =~= moved_param(
                theirs[i],
                pairs[i],
                slots[i],
            ));
            assert(next_slot(ours[i], pairs[i], slots[i]) =~= next_slot(
                theirs[i],
                pairs[i],
                slots[i],
            ));
        }
        assert(moved_params(ours, pairs, slots) =~= moved_params(theirs, pairs, slots));
        assert(next_slots(ours, pairs, slots) =~= next_slots(theirs, pairs, slots));
    }
}

/// A step's parameters and gradients, and the settings of its slots.
pub type StepInput<S> = (Seq<Pair<S>>, Seq<SlotHparams<S>>);

/// The optimizer after some steps in turn. A refused step changes nothing.
pub open spec fn adamw_after<S: Single>(
    state: AdamWModel<S>,
    steps: Seq<StepInput<S>>,
) -> AdamWModel<S>
    decreases steps.len(),
{
    if steps.len() == 0 {
        state
    } else {
        let before = adamw_after(state, steps.drop_last());
        match before.stepped(steps.last().0, steps.last().1) {
            Ok((_, next)) => next,
            Err(_) => before,
        }
    }
}

/// An optimizer of kind [`Adam`] after some steps in turn. A refused step changes
/// nothing.
pub open spec fn adam_after<S: Single>(state: AdamModel<S>, steps: Seq<StepInput<S>>) -> AdamModel<S>
    decreases steps.len(),
{
    if steps.len() == 0 {
        state
    } else {
        let before = adam_after(state, steps.drop_last());
        match before.stepped(steps.last().0, steps.last().1) {
            Ok((_, next)) => next,
            Err(_) => before,
        }
    }
}

/// Without weight decay every step of a sequence is a step of [`Adam`].
pub proof fn steps_without_decay_are_steps_of_adam<S: Single>(
    adamw: AdamWModel<S>,
    adam: AdamModel<S>,
    steps: Seq<StepInput<S>>,
)
    requires
        like_adam(adamw, adam),
        forall|k: int|
            0 <= k < steps.len() ==> without_decay((#[trigger] steps[k]).1, steps[k].0.len()),
    ensures
        like_adam(adamw_after(adamw, steps), adam_after(adam, steps)),
        steps.len() > 0 ==> {
            let (pairs, hparams) = steps.last();
            match (
                adamw_after(adamw, steps.drop_last()).stepped(pairs, hparams),
                adam_after(adam, steps.drop_last()).stepped(pairs, hparams),
            ) {
                (Ok((a, _)), Ok((b, _))) => a == b,
                (Err(a), Err(b)) => refused_alike(
                    adamw_after(adamw, steps.drop_last()).slots.len(),
                    pairs.len(),
                    a,
                    b,
                ),
                _ => false,
            }
        },
    decreases steps.len(),
{
    if steps.len() > 0 {
        let front = steps.drop_last();
        assert forall|k: int| 0 <= k < front.len() implies without_decay(
            (#[trigger] front[k]).1,
            front[k].0.len(),
        ) by {
            assert(without_decay(steps[k].1, steps[k].0.len()));
        }
        steps_without_decay_are_steps_of_adam(adamw, adam, front);
        assert(without_decay(steps.last().1, steps.last().0.len()));
        step_without_decay_is_a_step_of_adam(
            adamw_after(adamw, front),
            adam_after(adam, front),
            steps.last().0,
            steps.last().1,
        );
    }
}

} // verus!
