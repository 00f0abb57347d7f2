//! Adam with weight decay that is added to the gradient.
use crate::dict::StateDict;
use crate::error::{AutodiffError, ErrorModel, tell, told};
use crate::number::{
    Real, Single, fraction, in_unit_range, is_fraction, is_non_negative, is_number, is_positive,
    non_negative, one, positive, unit_range_is_closed, widened_fraction_in_unit_range, zero,
};
use crate::optim::param_group::{
    ParamGroup, ParamGroupStep, SlotHparams, SlotwiseStep, answers, check_len_matches,
    resolve_slot_hparams, zip_params_grads,
};
use crate::optim::slots::{
    Cell2, Cell3, Pair, Rule, Slot, SlotModel, accepted_step_is_aligned, advance,
    buffers_determine_slots, check_step, count_step, counted, decay_gradient, decayed, export_slots,
    import_slots, inputs, moved_params, next_slots, repeated, slot_models, slots_data, start,
    started, step_error,
};
use crate::optim::state_dict::{
    DecodedState, Layout, OptimizerStateDict, StateModel, decode_state_dict, decoded_slots_fit,
    encode_state_dict, largest_step_count, restored, saved_state_is_restored, saves,
};
use crate::tensor::{Tensor, TensorModel};
use crate::optim::rmsprop::{RmsPropRule};
use crate::optim::direction::{
    adaptive_step_descends, adaptive_step_lengths, against, average_between_its_ends,
    average_of_ones, average_of_squares, average_on_one_side, averages_are_ordered, corrected_rates,
    divisor_is_positive, equal_numbers_move_alike, fading_average, root_corrections, sided,
    squares_between_their_ends, widened_below_one, zero_is_zero,
};
use vstd::prelude::*;

verus! {

/// Hyperparameters of [`Adam`].
#[derive(Debug, Clone, Copy, PartialEq)]
pub struct AdamConfig<S> {
    pub lr: S,
    pub beta1: S,
    pub beta2: S,
    pub eps: S,
    pub weight_decay: S,
}

impl<S: Single> Default for AdamConfig<S> {
    fn default() -> (r: Self)
        ensures
            r == (AdamConfig {
                lr: S::decimal(1, -3),
                beta1: S::decimal(9, -1),
                beta2: S::decimal(999, -3),
                eps: S::decimal(1, -8),
                weight_decay: S::decimal(0, 0),
            }),
    {
        AdamConfig {
            lr: S::literal(1, -3),
            beta1: S::literal(9, -1),
            beta2: S::literal(999, -3),
            eps: S::literal(1, -8),
            weight_decay: S::literal(0, 0),
        }
    }
}

/// Why hyperparameters are refused, if they are.
pub open spec fn adam_config_error<S: Single>(config: AdamConfig<S>) -> Option<ErrorModel> {
    if !non_negative(config.lr) {
        Some(told("Adam::new: lr must be finite and >= 0.0, got ", config.lr))
    } else if !fraction(config.beta1) {
        Some(told("Adam::new: beta1 must be in [0.0, 1.0), got ", config.beta1))
    } else if !fraction(config.beta2) {
        Some(told("Adam::new: beta2 must be in [0.0, 1.0), got ", config.beta2))
    } else if !positive(config.eps) {
        Some(told("Adam::new: eps must be finite and > 0.0, got ", config.eps))
    } else if !non_negative(config.weight_decay) {
        Some(told("Adam::new: weight_decay must be finite and >= 0.0, got ", config.weight_decay))
    } else {
        None
    }
}

/// What the elements of one slot go through in one step.
#[derive(Clone, Copy)]
pub struct AdamRule<S> {
    pub beta1: S,
    pub beta2: S,
    pub eps: S,
    pub weight_decay: S,
    pub step_size: S,
    pub bias_correction2_sqrt: S,
}

impl<S: Single> Rule<S, Cell2<S>> for AdamRule<S> {
    open spec fn moved(self, param: S, grad: S, cell: Cell2<S>) -> S {
        let Cell2(m, v) = self.next(param, grad, cell);
        param.minus(
            self.step_size.times(m).over(
                v.root().over(self.bias_correction2_sqrt).plus(self.eps),
            ),
        )
    }

    open spec fn next(self, param: S, grad: S, cell: Cell2<S>) -> Cell2<S> {
        let g = decayed(self.weight_decay, param, grad);
        Cell2(
            self.beta1.fused(cell.0, one::<S>().minus(self.beta1).times(g)),
            self.beta2.fused(cell.1, one::<S>().minus(self.beta2).times(g).times(g)),
        )
    }

    fn apply(&self, param: S, grad: S, cell: Cell2<S>) -> (r: (S, Cell2<S>)) {
        let unit: S = S::literal(1, 0);
        let g: S = decay_gradient(self.weight_decay, param, grad);
        let m: S = self.beta1.mul_add(cell.0, unit.sub(self.beta1).mul(g));
        let v: S = self.beta2.mul_add(cell.1, unit.sub(self.beta2).mul(g).mul(g));
        let denom: S = v.sqrt().div(self.bias_correction2_sqrt).add(self.eps);
        (param.sub(self.step_size.mul(m).div(denom)), Cell2(m, v))
    }
}

/// An [`Adam`] optimizer as a mathematical value.
#[verifier::ext_equal]
pub struct AdamModel<S: Single> {
    pub config: AdamConfig<S>,
    pub step_count: u64,
    pub beta1_pow_t: S::Wide,
    pub beta2_pow_t: S::Wide,
    pub slots: Seq<SlotModel<Cell2<S>>>,
}

impl<S: Single> AdamModel<S> {
    /// The rule of a slot in a step after which the decay rates have been
    /// multiplied up to the given powers.
    pub open spec fn rule(
        config: AdamConfig<S>,
        beta1_pow_t: S::Wide,
        beta2_pow_t: S::Wide,
        hparams: SlotHparams<S>,
    ) -> AdamRule<S> {
        AdamRule {
            beta1: config.beta1,
            beta2: config.beta2,
            eps: config.eps,
            weight_decay: hparams.weight_decay,
            step_size: S::rounded(
                hparams.lr.widened().over(one::<S::Wide>().minus(beta1_pow_t)),
            ),
            bias_correction2_sqrt: S::rounded(one::<S::Wide>().minus(beta2_pow_t).root()),
        }
    }

    /// One step.
    pub open spec fn stepped(
        self,
        pairs: Seq<Pair<S>>,
        hparams: Seq<SlotHparams<S>>,
    ) -> Result<(Seq<TensorModel<S>>, AdamModel<S>), ErrorModel> {
        match step_error("Adam", "m/v", self.slots, pairs) {
            Some(e) => Err(e),
            None => match counted(self.step_count) {
                Err(e) => Err(e),
                Ok(step_count) => {
                    let beta1_pow_t = self.beta1_pow_t.times(self.config.beta1.widened());
                    let beta2_pow_t = self.beta2_pow_t.times(self.config.beta2.widened());
                    let rules = Seq::new(
                        pairs.len(),
                        |i: int| Self::rule(self.config, beta1_pow_t, beta2_pow_t, hparams[i]),
                    );
                    let slots = started(self.slots, pairs, Cell2(zero::<S>(), zero::<S>()));
                    Ok(
                        (
                            moved_params(rules, pairs, slots),
                            AdamModel {
                                config: self.config,
                                step_count,
                                beta1_pow_t,
                                beta2_pow_t,
                                slots: next_slots(rules, pairs, slots),
                            },
                        ),
                    )
                },
            },
        }
    }
}

/// A step leads against the gradient, weight decay included, where the first moment points the
/// same way. It still does after the step.
pub proof fn adam_descends<S: Single>(rule: AdamRule<S>, param: S, grad: S, cell: Cell2<S>)
    requires
        in_unit_range(rule.beta1),
        zero::<S>().at_most(rule.step_size),
        zero::<S>().less(rule.bias_correction2_sqrt),
        zero::<S>().less(rule.eps),
        sided(decayed(rule.weight_decay, param, grad), cell.0),
        is_number(rule.moved(param, grad, cell)),
    ensures
        against(
            decayed(rule.weight_decay, param, grad),
            param,
            rule.moved(param, grad, cell),
        ),
        sided(decayed(rule.weight_decay, param, grad), rule.next(param, grad, cell).0),
        is_number(decayed(rule.weight_decay, param, grad)),
{
    let g = decayed(rule.weight_decay, param, grad);
    let start = param;
    let next = rule.next(param, grad, cell);
    let d = next.1.root().over(rule.bias_correction2_sqrt).plus(rule.eps);
    let way = rule.step_size.times(next.0);
    start.fused_operands(way.over(d), d);
    way.fused_operands(d, d);
    rule.step_size.fused_operands(next.0, d);
    rule.beta1.fused_operands(cell.0, one::<S>().minus(rule.beta1).times(g));
    one::<S>().minus(rule.beta1).fused_operands(g, g);
    average_on_one_side(g, rule.beta1, cell.0, g);
    adaptive_step_descends(
        g,
        start,
        rule.step_size,
        next.0,
        next.1,
        rule.bias_correction2_sqrt,
        rule.eps,
    );
}

/// A larger epsilon and a larger second moment make a step shorter. A larger step size
/// and a larger correction of the second moment make it longer.
pub proof fn adam_step_lengths<S: Single>(
    rule: AdamRule<S>,
    param: S,
    grad: S,
    cell: Cell2<S>,
    other: S,
)
    requires
        in_unit_range(rule.beta1),
        in_unit_range(rule.beta2),
        zero::<S>().at_most(rule.step_size),
        zero::<S>().less(rule.bias_correction2_sqrt),
        zero::<S>().less(rule.eps),
        sided(decayed(rule.weight_decay, param, grad), cell.0),
        is_number(rule.moved(param, grad, cell)),
    ensures
        ({
            let g = decayed(rule.weight_decay, param, grad);
            let moved = rule.moved(param, grad, cell);
            let wider = (AdamRule { eps: other, ..rule }).moved(param, grad, cell);
            let further = (AdamRule { step_size: other, ..rule }).moved(param, grad, cell);
            let corrected = (AdamRule { bias_correction2_sqrt: other, ..rule }).moved(
                param,
                grad,
                cell,
            );
            let larger = rule.moved(param, grad, Cell2(cell.0, other));
            &&& rule.eps.at_most(other) && is_number(wider) ==> against(g, wider, moved)
            &&& rule.step_size.at_most(other) && is_number(further) ==> against(g, moved, further)
            &&& rule.bias_correction2_sqrt.at_most(other) && is_number(corrected) ==> against(
                g,
                moved,
                corrected,
            )
            &&& cell.1.at_most(other) && is_number(larger) ==> against(g, larger, moved)
        }),
{
    let g = decayed(rule.weight_decay, param, grad);
    let start = param;
    let next = rule.next(param, grad, cell);
    let (m, v) = (next.0, next.1);
    let c = rule.bias_correction2_sqrt;
    adam_descends(rule, param, grad, cell);
    adaptive_step_lengths(g, start, m, rule.step_size, v, c, rule.eps, other);
    let higher = rule.next(param, grad, Cell2(cell.0, other)).1;
    if cell.1.at_most(other) && is_number(rule.moved(param, grad, Cell2(cell.0, other))) {
        adaptive_step_descends(g, start, rule.step_size, m, higher, c, rule.eps);
        adaptive_step_descends(g, start, rule.step_size, m, v, c, rule.eps);
        averages_are_ordered(
            rule.beta2,
            cell.1,
            other,
            one::<S>().minus(rule.beta2).times(g).times(g),
        );
        adaptive_step_lengths(g, start, m, rule.step_size, v, c, rule.eps, higher);
    }
}

/// The moments are what they were where nothing is forgotten and the gradient and its
/// square where everything is, and stay one under gradients of one. Without a gradient, moments of
/// one fall to the decay rates. The second moment is not negative, and enters a step by
/// its root.
pub proof fn adam_moments<S: Single>(rule: AdamRule<S>, param: S, grad: S, cell: Cell2<S>)
    requires
        in_unit_range(rule.beta1),
        in_unit_range(rule.beta2),
        cell.0.finite(),
        cell.1.finite(),
        decayed(rule.weight_decay, param, grad).finite(),
        decayed(rule.weight_decay, param, grad).times(
            decayed(rule.weight_decay, param, grad),
        ).finite(),
    ensures
        ({
            let g = decayed(rule.weight_decay, param, grad);
            let next = rule.next(param, grad, cell);
            &&& rule.beta1 == zero::<S>() ==> next.0.same(g)
            &&& rule.beta1 == one::<S>() ==> next.0.same(cell.0)
            &&& rule.beta2 == zero::<S>() ==> next.1.same(g.times(g))
            &&& rule.beta2 == one::<S>() ==> next.1.same(cell.1)
            &&& cell == Cell2(one::<S>(), one::<S>()) && g == one::<S>() ==> next == Cell2(
                one::<S>(),
                one::<S>(),
            )
            &&& cell == Cell2(one::<S>(), one::<S>()) && g == zero::<S>() ==> next.0.same(
                rule.beta1,
            ) && next.1.same(rule.beta2)
            &&& zero::<S>().at_most(cell.1) && is_number(next.1) ==> zero::<S>().at_most(next.1)
            &&& rule.bias_correction2_sqrt == one::<S>() && next.1 == S::decimal(4, 0)
                ==> rule.moved(param, grad, cell) == param.minus(
                rule.step_size.times(next.0).over(S::decimal(2, 0).plus(rule.eps)),
            )
            &&& rule.step_size == one::<S>() && rule.bias_correction2_sqrt == S::decimal(2, 0)
                && next.1.root() == S::decimal(4, 0) ==> rule.moved(param, grad, cell)
                == param.minus(next.0.over(S::decimal(2, 0).plus(rule.eps)))
        }),
{
    let g = decayed(rule.weight_decay, param, grad);
    let next = rule.next(param, grad, cell);
    average_between_its_ends(cell.0, g);
    squares_between_their_ends(cell.1, g);
    average_of_ones(rule.beta1);
    average_of_ones(rule.beta2);
    fading_average(rule.beta1);
    fading_average(rule.beta2);
    if zero::<S>().at_most(cell.1) && is_number(next.1) {
        average_of_squares(rule.beta2, cell.1, g);
    }
    one::<S>().neutral(next.0);
    next.0.neutral(one());
    S::decimal(2, 0).neutral(one());
}

/// The step size is at least the learning rate, and is it once the first decay rate has
/// died away; until then it falls from step to step, as the power of the decay rate
/// does. The correction of the second moment lies from zero to one, is one in the long
/// run, and rises until then.
pub proof fn adam_corrections_die_away<S: Single>(
    config: AdamConfig<S>,
    hparams: SlotHparams<S>,
    beta1_pow_t: S::Wide,
    beta2_pow_t: S::Wide,
    later1: S::Wide,
    later2: S::Wide,
)
    requires
        non_negative(hparams.lr),
        fraction(beta1_pow_t),
        fraction(beta2_pow_t),
        fraction(later1),
        fraction(later2),
        later1.at_most(beta1_pow_t),
        later2.at_most(beta2_pow_t),
    ensures
        ({
            let rule = AdamModel::rule(config, beta1_pow_t, beta2_pow_t, hparams);
            let later = AdamModel::rule(config, later1, later2, hparams);
            &&& hparams.lr.at_most(rule.step_size)
            &&& beta1_pow_t == zero::<S::Wide>() ==> rule.step_size == hparams.lr
            &&& later.step_size.at_most(rule.step_size)
            &&& in_unit_range(rule.bias_correction2_sqrt)
            &&& beta2_pow_t == zero::<S::Wide>() ==> rule.bias_correction2_sqrt == one::<S>()
            &&& rule.bias_correction2_sqrt.at_most(later.bias_correction2_sqrt)
            &&& one::<S::Wide>().minus(beta2_pow_t) == <S::Wide as Real>::decimal(25, -2)
                ==> rule.bias_correction2_sqrt == S::rounded(<S::Wide as Real>::decimal(5, -1))
            &&& rule.beta1 == config.beta1 && rule.beta2 == config.beta2 && rule.eps == config.eps
            &&& rule.weight_decay == hparams.weight_decay
        }),
{
    corrected_rates(hparams.lr, beta1_pow_t, later1);
    unit_range_is_closed(beta2_pow_t, one());
    unit_range_is_closed(later2, one());
    root_corrections::<S>(beta2_pow_t, later2);
}

/// Without momentum and corrections a step is one of [`RmsProp`], to a number that
/// compares equal: both go back by the gradient over the root of its mean square.
///
/// [`RmsProp`]: crate::optim::rmsprop::RmsProp
pub proof fn adam_without_momentum_is_rmsprop<S: Single>(
    adam: AdamRule<S>,
    rmsprop: RmsPropRule<S>,
    param: S,
    grad: S,
    m: S,
    v: S,
    rest: S,
)
    requires
        adam.beta1 == zero::<S>(),
        adam.bias_correction2_sqrt == one::<S>(),
        adam.beta2 == rmsprop.alpha,
        adam.eps == rmsprop.eps,
        adam.step_size == rmsprop.lr,
        adam.weight_decay == rmsprop.weight_decay,
        !rmsprop.centered,
        !zero::<S>().less(rmsprop.momentum),
        zero::<S>().at_most(rmsprop.lr),
        zero::<S>().less(rmsprop.eps),
        m.finite(),
        decayed(adam.weight_decay, param, grad).finite(),
        is_number(adam.moved(param, grad, Cell2(m, v))),
        is_number(rmsprop.moved(param, grad, Cell3(v, rest, rest))),
    ensures
        adam.moved(param, grad, Cell2(m, v)).same(
            rmsprop.moved(param, grad, Cell3(v, rest, rest)),
        ),
        adam.next(param, grad, Cell2(m, v)).1 == rmsprop.next(param, grad, Cell3(v, rest, rest)).0,
{
    let g = decayed(adam.weight_decay, param, grad);
    let next = adam.next(param, grad, Cell2(m, v));
    let root = next.1.root();
    let d = root.over(one()).plus(adam.eps);
    average_between_its_ends(m, g);
    root.neutral(one());
    let way = adam.step_size.times(next.0);
    param.fused_operands(way.over(d), d);
    way.fused_operands(d, d);
    zero_is_zero::<S>();
    S::decimals(0, 1, 0);
    divisor_is_positive(next.1, one(), adam.eps);
    equal_numbers_move_alike(param, next.0, g, adam.step_size, d);
}

/// The first step descends: without weight decay, an element whose gradient is not
/// negative does not grow, and one whose gradient is not positive does not shrink.
pub proof fn first_adam_step_descends<S: Single>(
    config: AdamConfig<S>,
    pairs: Seq<Pair<S>>,
    hparams: Seq<SlotHparams<S>>,
    i: int,
    k: int,
)
    requires
        adam_config_error(config) is None,
        0 <= i < pairs.len(),
        0 <= k < pairs[i].param.data.len(),
        non_negative(hparams[i].lr),
        hparams[i].weight_decay.same(zero()),
        (AdamModel {
            config,
            step_count: 0,
            beta1_pow_t: one(),
            beta2_pow_t: one(),
            slots: Seq::empty(),
        }).stepped(pairs, hparams) matches Ok((params, _)) && is_number(params[i].data[k]),
    ensures
        (AdamModel {
            config,
            step_count: 0,
            beta1_pow_t: one(),
            beta2_pow_t: one(),
            slots: Seq::empty(),
        }).stepped(pairs, hparams) matches Ok((params, _)) && against(
            pairs[i].grad.data[k],
            pairs[i].param.data[k],
            params[i].data[k],
        ),
{
    let unit = one::<S::Wide>();
    let (b1, b2) = (config.beta1.widened(), config.beta2.widened());
    b1.neutral(unit);
    unit.neutral(b1);
    b2.neutral(unit);
    unit.neutral(b2);
    zero_is_zero::<S>();
    widened_below_one(config.beta1);
    config.beta2.precisions(b2);
    unit_range_is_closed(config.beta1, one());
    corrected_rates(hparams[i].lr, b1, b1);
    let rule = AdamModel::rule(config, unit.times(b1), unit.times(b2), hparams[i]);
    zero::<S>().order(hparams[i].lr, rule.step_size);
    adam_descends(
        rule,
        pairs[i].param.data[k],
        pairs[i].grad.data[k],
        Cell2(zero::<S>(), zero::<S>()),
    );
}

/// The powers of the decay rates start at one: the first step multiplies them up to the
/// decay rates themselves. Every step counts.
pub proof fn adam_powers_start_with_the_decay_rates<S: Single>(
    optimizer: AdamModel<S>,
    pairs: Seq<Pair<S>>,
    hparams: Seq<SlotHparams<S>>,
)
    requires
        optimizer.stepped(pairs, hparams) is Ok,
    ensures
        optimizer.stepped(pairs, hparams) matches Ok((_, next)) && {
            &&& next.step_count == optimizer.step_count + 1
            &&& next.config == optimizer.config
            &&& optimizer.beta1_pow_t == one::<S::Wide>() ==> next.beta1_pow_t
                == optimizer.config.beta1.widened()
            &&& optimizer.beta2_pow_t == one::<S::Wide>() ==> next.beta2_pow_t
                == optimizer.config.beta2.widened()
            &&& optimizer.config.beta1 == one::<S>() ==> next.beta1_pow_t == optimizer.beta1_pow_t
            &&& optimizer.config.beta2 == one::<S>() ==> next.beta2_pow_t == optimizer.beta2_pow_t
        },
{
    let (a, b) = (optimizer.config.beta1.widened(), optimizer.config.beta2.widened());
    a.neutral(one());
    b.neutral(one());
    one::<S::Wide>().neutral(a);
    one::<S::Wide>().neutral(b);
    optimizer.beta1_pow_t.neutral(one());
    optimizer.beta2_pow_t.neutral(one());
    one::<S>().precisions(one());
}

/// The Adam optimizer.
pub struct Adam<S: Single> {
    config: AdamConfig<S>,
    step_count: u64,
    beta1_pow_t: S::Wide,
    beta2_pow_t: S::Wide,
    slots: Vec<Slot<Cell2<S>>>,
}

impl<S: Single> View for Adam<S> {
    type V = AdamModel<S>;

    closed spec fn view(&self) -> AdamModel<S> {
        AdamModel {
            config: self.config,
            step_count: self.step_count,
            beta1_pow_t: self.beta1_pow_t,
            beta2_pow_t: self.beta2_pow_t,
            slots: slot_models(self.slots@),
        }
    }
}

impl<S: Single> Adam<S> {
    #[verifier::type_invariant]
    spec fn wf(&self) -> bool {
        &&& fraction(self.config.beta1)
        &&& fraction(self.config.beta2)
        &&& in_unit_range(self.beta1_pow_t)
        &&& in_unit_range(self.beta2_pow_t)
    }

    /// An optimizer that has taken no step.
    pub fn new(config: AdamConfig<S>) -> (r: Result<Adam<S>, AutodiffError>)
        ensures
            match r {
                Ok(optimizer) => {
                    &&& adam_config_error(config) is None
                    &&& optimizer@ == (AdamModel {
                        config,
                        step_count: 0,
                        beta1_pow_t: one(),
                        beta2_pow_t: one(),
                        slots: Seq::empty(),
                    })
                },
                Err(e) => adam_config_error(config) == Some(e@),
            },
    {
        if !is_non_negative(config.lr) {
            return Err(tell("Adam::new: lr must be finite and >= 0.0, got ", config.lr));
        }
        if !is_fraction(config.beta1) {
            return Err(tell("Adam::new: beta1 must be in [0.0, 1.0), got ", config.beta1));
        }
        if !is_fraction(config.beta2) {
            return Err(tell("Adam::new: beta2 must be in [0.0, 1.0), got ", config.beta2));
        }
        if !is_positive(config.eps) {
            return Err(tell("Adam::new: eps must be finite and > 0.0, got ", config.eps));
        }
        if !is_non_negative(config.weight_decay) {
            return Err(
                tell(
                    "Adam::new: weight_decay must be finite and >= 0.0, got ",
                    config.weight_decay,
                ),
            );
        }
        proof {
            unit_range_is_closed(one::<S::Wide>(), one());
        }
        let r = Adam {
            config,
            step_count: 0,
            beta1_pow_t: <S::Wide as Real>::literal(1, 0),
            beta2_pow_t: <S::Wide as Real>::literal(1, 0),
            slots: Vec::new(),
        };
        assert(r@.slots =~= Seq::empty());
        Ok(r)
    }

    pub fn config(&self) -> (r: &AdamConfig<S>)
        ensures
            *r == self@.config,
    {
        &self.config
    }

    /// The number of steps taken.
    pub fn step_count(&self) -> (r: u64)
        ensures
            r == self@.step_count,
    {
        self.step_count
    }

    /// Replaces the learning rate and leaves everything else as it is.
    pub fn set_lr(&mut self, new_lr: S) -> (r: Result<(), AutodiffError>)
        ensures
            match r {
                Ok(_) => {
                    &&& non_negative(new_lr)
                    &&& final(self)@ == (AdamModel {
                        config: AdamConfig { lr: new_lr, ..old(self)@.config },
                        ..old(self)@
                    })
                },
                Err(e) => {
                    &&& !non_negative(new_lr)
                    &&& e@ == told("Adam::set_lr: lr must be finite and >= 0.0, got ", new_lr)
                    &&& final(self)@ == old(self)@
                },
            },
    {
        if !is_non_negative(new_lr) {
            return Err(tell("Adam::set_lr: lr must be finite and >= 0.0, got ", new_lr));
        }
        proof {
            use_type_invariant(&*self);
        }
        self.config.lr = new_lr;
        Ok(())
    }

    /// One step with the configured learning rate and weight decay. Returns the
    /// parameters after the step, in the order in which they were given.
    pub fn step(&mut self, params_and_grads: &[(&Tensor<S>, &Tensor<S>)]) -> (r: Result<
        Vec<Tensor<S>>,
        AutodiffError,
    >)
        ensures
            answers(
                r,
                old(self)@.stepped(
                    inputs(params_and_grads@),
                    Seq::new(
                        params_and_grads@.len(),
                        |i: int|
                            SlotHparams {
                                lr: old(self)@.config.lr,
                                weight_decay: old(self)@.config.weight_decay,
                            },
                    ),
                ),
                old(self)@,
                final(self)@,
            ),
    {
        let hparams: Vec<SlotHparams<S>> = repeated(
            SlotHparams { lr: self.config.lr, weight_decay: self.config.weight_decay },
            params_and_grads.len(),
        );
        self.step_with_slot_hparams(params_and_grads, &hparams)
    }

    /// One step with a learning rate and a weight decay for each slot.
    pub fn step_with_slot_hparams(
        &mut self,
        params_and_grads: &[(&Tensor<S>, &Tensor<S>)],
        hparams: &Vec<SlotHparams<S>>,
    ) -> (r: Result<Vec<Tensor<S>>, AutodiffError>)
        requires
            hparams@.len() == params_and_grads@.len(),
        ensures
            answers(
                r,
                old(self)@.stepped(inputs(params_and_grads@), hparams@),
                old(self)@,
                final(self)@,
            ),
    {
        match check_step("Adam", "m/v", &self.slots, params_and_grads) {
            Err(e) => {
                return Err(e);
            },
            Ok(_) => {},
        }
        let step_count: u64 = match count_step(self.step_count) {
            Err(e) => {
                return Err(e);
            },
            Ok(step_count) => step_count,
        };
        let unit: S::Wide = <S::Wide as Real>::literal(1, 0);
        let beta1_pow_t: S::Wide = self.beta1_pow_t.mul(self.config.beta1.widen());
        let beta2_pow_t: S::Wide = self.beta2_pow_t.mul(self.config.beta2.widen());
        let bias_correction1: S::Wide = unit.sub(beta1_pow_t);
        let bias_correction2_sqrt: S = S::round(unit.sub(beta2_pow_t).sqrt());
        let mut rules: Vec<AdamRule<S>> = Vec::new();
        let mut i: usize = 0;
        while i < hparams.len()
            invariant
                i <= hparams@.len(),
                rules@.len() == i,
                bias_correction1 == one::<S::Wide>().minus(beta1_pow_t),
                bias_correction2_sqrt == S::rounded(one::<S::Wide>().minus(beta2_pow_t).root()),
                forall|k: int|
                    0 <= k < i ==> #[trigger] rules@[k] == AdamModel::rule(
                        self.config,
                        beta1_pow_t,
                        beta2_pow_t,
                        hparams@[k],
                    ),
            decreases hparams@.len() - i,
        {
            rules.push(
                AdamRule {
                    beta1: self.config.beta1,
                    beta2: self.config.beta2,
                    eps: self.config.eps,
                    weight_decay: hparams[i].weight_decay,
                    step_size: S::round(hparams[i].lr.widen().div(bias_correction1)),
                    bias_correction2_sqrt,
                },
            );
            i = i + 1;
        }
        let blank = Cell2(S::literal(0, 0), S::literal(0, 0));
        proof {
            accepted_step_is_aligned(
                "Adam",
                "m/v",
                slot_models(self.slots@),
                inputs(params_and_grads@),
                blank,
            );
            assert(rules@ =~= Seq::new(
                inputs(params_and_grads@).len(),
                |k: int| AdamModel::rule(self.config, beta1_pow_t, beta2_pow_t, hparams@[k]),
            ));
        }
        let slots: Vec<Slot<Cell2<S>>> = start(&self.slots, params_and_grads, blank);
        let (params, next) = advance(&rules, params_and_grads, &slots);
        proof {
            use_type_invariant(&*self);
            widened_fraction_in_unit_range(self.config.beta1);
            unit_range_is_closed(self.beta1_pow_t, self.config.beta1.widened());
            widened_fraction_in_unit_range(self.config.beta2);
            unit_range_is_closed(self.beta2_pow_t, self.config.beta2.widened());
        }
        self.step_count = step_count;
        self.beta1_pow_t = beta1_pow_t;
        self.beta2_pow_t = beta2_pow_t;
        self.slots = next;
        Ok(params)
    }
}

impl<S: Single> SlotwiseStep<S> for Adam<S> {
    open spec fn name() -> Seq<char> {
        "Adam"@
    }

    open spec fn default_hparams(state: AdamModel<S>) -> SlotHparams<S> {
        SlotHparams { lr: state.config.lr, weight_decay: state.config.weight_decay }
    }

    open spec fn stepped(
        state: AdamModel<S>,
        pairs: Seq<Pair<S>>,
        hparams: Seq<SlotHparams<S>>,
    ) -> Result<(Seq<TensorModel<S>>, AdamModel<S>), ErrorModel> {
        state.stepped(pairs, hparams)
    }
}

impl<S: Single> ParamGroupStep<S> for Adam<S> {
    fn step_with_groups(
        &mut self,
        params: &[&Tensor<S>],
        grads: &[&Tensor<S>],
        groups: &[ParamGroup<S>],
    ) -> (r: Result<Vec<Tensor<S>>, AutodiffError>) {
        match check_len_matches("Adam", params, grads) {
            Err(e) => {
                return Err(e);
            },
            Ok(_) => {},
        }
        let hparams: Vec<SlotHparams<S>> = match resolve_slot_hparams(
            groups,
            params.len(),
            self.config.lr,
            self.config.weight_decay,
            "Adam",
        ) {
            Err(e) => {
                return Err(e);
            },
            Ok(hparams) => hparams,
        };
        let pairs: Vec<(&Tensor<S>, &Tensor<S>)> = zip_params_grads(params, grads);
        self.step_with_slot_hparams(pairs.as_slice(), &hparams)
    }
}

impl<S: Single> OptimizerStateDict<S> for Adam<S> {
    open spec fn layout() -> Layout {
        Layout {
            kind: "adam"@,
            buffers: seq!["m"@, "v"@],
            has_beta1: true,
            has_beta2: true,
            has_mu_product: false,
        }
    }

    open spec fn accumulated(&self) -> StateModel<S> {
        StateModel {
            step_count: self@.step_count,
            beta1_pow_t: Some(self@.beta1_pow_t),
            beta2_pow_t: Some(self@.beta2_pow_t),
            mu_product: None,
            slots: slots_data(self@.slots),
        }
    }

    open spec fn same_settings(&self, other: &Self) -> bool {
        self@.config == other@.config
    }

    fn state_dict(&self) -> (r: Result<StateDict<S>, AutodiffError>) {
        let names: [&str; 2] = ["m", "v"];
        proof {
            use_type_invariant(self);
            reveal_strlit("m");
            reveal_strlit("v");
            assert("m"@[0] != "v"@[0]);
            assert(names@.map_values(|name: &str| name@) =~= Self::layout().buffers);
        }
        let state = DecodedState {
            step_count: self.step_count,
            beta1_pow_t: Some(self.beta1_pow_t),
            beta2_pow_t: Some(self.beta2_pow_t),
            mu_product: None,
            slots: export_slots(&self.slots),
        };
        assert(state@ =~= self.accumulated());
        Ok(encode_state_dict("adam", &names, &state))
    }

    fn load_state_dict(&mut self, state: StateDict<S>) -> (r: Result<(), AutodiffError>) {
        let names: [&str; 2] = ["m", "v"];
        assert(names@.map_values(|name: &str| name@) =~= Self::layout().buffers);
        match decode_state_dict("adam", &state, &names, true, true, false) {
            Err(e) => Err(e),
            Ok(decoded) => {
                proof {
                    use_type_invariant(&*self);
                    decoded_slots_fit(state@, Self::layout(), decoded);
                }
                self.step_count = decoded.step_count;
                match decoded.beta1_pow_t {
                    Some(value) => {
                        self.beta1_pow_t = value;
                    },
                    None => {},
                }
                match decoded.beta2_pow_t {
                    Some(value) => {
                        self.beta2_pow_t = value;
                    },
                    None => {},
                }
                self.slots = import_slots(&decoded.slots);
                assert(self.accumulated() =~= decoded@);
                Ok(())
            },
        }
    }
}

/// An optimizer that takes over a saved state is in all respects like the one that
/// saved it, if both have the same settings. The state is accepted unless the
/// counter of steps is at its end, where no further step could be counted.
pub proof fn adam_resumes_from_its_saved_state<S: Single>(
    saved: Adam<S>,
    dict: StateDict<S>,
    resumed: Adam<S>,
)
    requires
        saves(dict@, Adam::<S>::layout(), saved.accumulated()),
        saved@.step_count <= largest_step_count(false),
        resumed.same_settings(&saved),
    ensures
        restored(dict@, Adam::<S>::layout()) == Ok::<_, ErrorModel>(saved.accumulated()),
        restored(dict@, Adam::<S>::layout()) == Ok::<_, ErrorModel>(resumed.accumulated())
            ==> resumed@ == saved@,
{
    reveal_strlit("m");
    reveal_strlit("v");
    assert("m"@[0] != "v"@[0]);
    dict.entries_are_countable();
    saved_state_is_restored(dict@, Adam::<S>::layout(), saved.accumulated());
    if resumed.accumulated() == saved.accumulated() {
        buffers_determine_slots::<S, _>(resumed@.slots, saved@.slots);
    }
}

} // verus!
