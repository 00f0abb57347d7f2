//! NAdam: Adam with Nesterov momentum that is scheduled over the steps.
use crate::dict::StateDict;
use crate::error::{AutodiffError, ErrorModel, tell, told};
use crate::number::{
    Double, Real, Single, fraction, in_unit_range, is_fraction, is_non_negative, is_number,
    is_positive, non_negative, one, positive, unit_range_is_closed, widened_fraction_in_unit_range,
    zero,
};
use crate::optim::param_group::answers;
use crate::optim::slots::{
    Cell2, Pair, Rule, Slot, SlotModel, accepted_step_is_aligned, advance, blend, blended,
    buffers_determine_slots, check_step, count_step, counted, decay_gradient, decayed, export_slots,
    import_slots, inputs, moved_params, next_slots, repeated, slot_models, slots_data, start,
    started, step_error,
};
use crate::optim::state_dict::{
    DecodedState, Layout, OptimizerStateDict, StateModel, decode_state_dict, decoded_slots_fit,
    encode_state_dict, largest_step_count, restored, saved_state_is_restored, saves,
};
use crate::tensor::{Tensor, TensorModel};
use crate::optim::direction::{
    against, average_of_ones, average_of_squares, averages_are_ordered, blend_between_its_ends,
    blend_of_equals, decay_follows_the_parameter, fading_average, nothing_taken, plain_corrections,
    positive_sum, shrunk_number, sided, sided_blend, squares_between_their_ends, turned_quotient,
    zero_is_zero,
};
use vstd::prelude::*;

verus! {

/// Hyperparameters of [`NAdam`].
#[derive(Debug, Clone, Copy, PartialEq)]
pub struct NAdamConfig<S> {
    pub lr: S,
    pub beta1: S,
    pub beta2: S,
    pub eps: S,
    pub weight_decay: S,
    pub momentum_decay: S,
    /// Whether the decay shrinks the parameter instead of changing the gradient.
    pub decoupled_weight_decay: bool,
}

impl<S: Single> Default for NAdamConfig<S> {
    fn default() -> (r: Self)
        ensures
            r == (NAdamConfig {
                lr: S::decimal(2, -3),
                beta1: S::decimal(9, -1),
                beta2: S::decimal(999, -3),
                eps: S::decimal(1, -8),
                weight_decay: S::decimal(0, 0),
                momentum_decay: S::decimal(4, -3),
                decoupled_weight_decay: false,
            }),
    {
        NAdamConfig {
            lr: S::literal(2, -3),
            beta1: S::literal(9, -1),
            beta2: S::literal(999, -3),
            eps: S::literal(1, -8),
            weight_decay: S::literal(0, 0),
            momentum_decay: S::literal(4, -3),
            decoupled_weight_decay: false,
        }
    }
}

/// Why hyperparameters are refused, if they are.
pub open spec fn nadam_config_error<S: Single>(config: NAdamConfig<S>) -> Option<ErrorModel> {
    if !non_negative(config.lr) {
        Some(told("NAdam::new: lr must be finite and >= 0.0, got ", config.lr))
    } else if !fraction(config.beta1) {
        Some(told("NAdam::new: beta1 must be in [0.0, 1.0), got ", config.beta1))
    } else if !fraction(config.beta2) {
        Some(told("NAdam::new: beta2 must be in [0.0, 1.0), got ", config.beta2))
    } else if !positive(config.eps) {
        Some(told("NAdam::new: eps must be finite and > 0.0, got ", config.eps))
    } else if !non_negative(config.weight_decay) {
        Some(told("NAdam::new: weight_decay must be finite and >= 0.0, got ", config.weight_decay))
    } else if !non_negative(config.momentum_decay) {
        Some(
            told(
                "NAdam::new: momentum_decay must be finite and >= 0.0, got ",
                config.momentum_decay,
            ),
        )
    } else {
        None
    }
}

/// What the elements of one slot go through in one step.
#[derive(Clone, Copy)]
pub struct NAdamRule<S> {
    pub lr: S,
    pub beta1: S,
    pub beta2: S,
    pub eps: S,
    pub weight_decay: S,
    pub decoupled: bool,
    pub bc2: S,
    pub coef_grad: S,
    pub coef_exp_avg: S,
}

impl<S: Single> NAdamRule<S> {
    /// The element that the step starts from.
    pub open spec fn start(self, param: S) -> S {
        if self.decoupled && !self.weight_decay.same(zero()) {
            param.times(one::<S>().minus(self.lr.times(self.weight_decay)))
        } else {
            param
        }
    }

    /// The gradient that the step uses.
    pub open spec fn gradient(self, param: S, grad: S) -> S {
        if self.decoupled {
            grad
        } else {
            decayed(self.weight_decay, param, grad)
        }
    }
}

impl<S: Single> Rule<S, Cell2<S>> for NAdamRule<S> {
    open spec fn moved(self, param: S, grad: S, cell: Cell2<S>) -> S {
        let g = self.gradient(param, grad);
        let Cell2(exp_avg, exp_avg_sq) = self.next(param, grad, cell);
        let denom = exp_avg_sq.over(self.bc2).root().plus(self.eps);
        self.start(param).plus(self.coef_grad.times(g).over(denom)).plus(
            self.coef_exp_avg.times(exp_avg).over(denom),
        )
    }

    open spec fn next(self, param: S, grad: S, cell: Cell2<S>) -> Cell2<S> {
        let g = self.gradient(param, grad);
        Cell2(
            blended(cell.0, g, one::<S>().minus(self.beta1), self.beta1),
            self.beta2.fused(cell.1, one::<S>().minus(self.beta2).times(g).times(g)),
        )
    }

    fn apply(&self, param: S, grad: S, cell: Cell2<S>) -> (r: (S, Cell2<S>)) {
        let unit: S = S::literal(1, 0);
        let (p, g): (S, S) = if self.decoupled {
            if self.weight_decay.eq(S::literal(0, 0)) {
                (param, grad)
            } else {
                (param.mul(unit.sub(self.lr.mul(self.weight_decay))), grad)
            }
        } else {
            (param, decay_gradient(self.weight_decay, param, grad))
        };
        let exp_avg: S = blend(cell.0, g, unit.sub(self.beta1), self.beta1);
        let exp_avg_sq: S = self.beta2.mul_add(cell.1, unit.sub(self.beta2).mul(g).mul(g));
        let denom: S = exp_avg_sq.div(self.bc2).sqrt().add(self.eps);
        let p: S = p.add(self.coef_grad.mul(g).div(denom));
        (p.add(self.coef_exp_avg.mul(exp_avg).div(denom)), Cell2(exp_avg, exp_avg_sq))
    }
}

/// An [`NAdam`] optimizer as a mathematical value.
#[verifier::ext_equal]
pub struct NAdamModel<S: Single> {
    pub config: NAdamConfig<S>,
    pub step_count: u64,
    pub beta2_pow_t: S::Wide,
    pub mu_product: S,
    pub slots: Seq<SlotModel<Cell2<S>>>,
}

impl<S: Single> NAdamModel<S> {
    /// The momentum factor at a point in time that is counted in steps.
    pub open spec fn momentum(config: NAdamConfig<S>, time: S::Wide) -> S::Wide {
        let base = <S::Wide as Real>::decimal(96, -2);
        let half = <S::Wide as Real>::decimal(5, -1);
        config.beta1.widened().times(
            one::<S::Wide>().minus(
                half.times(base.raised(time.times(config.momentum_decay.widened()))),
            ),
        )
    }

    /// The momentum factor of step number `step`.
    pub open spec fn momentum_at(config: NAdamConfig<S>, step: u64) -> S::Wide {
        Self::momentum(config, <S::Wide as Double>::of_integer(step as u128))
    }

    /// The momentum factor of the step after step number `step`.
    pub open spec fn momentum_after(config: NAdamConfig<S>, step: u64) -> S::Wide {
        Self::momentum(
            config,
            <S::Wide as Double>::of_integer(step as u128).plus(one::<S::Wide>()),
        )
    }

    /// The rule of every slot in step number `step`, after which the second decay
    /// rate has been multiplied up to the given power and the momentum factors to
    /// the given product.
    pub open spec fn rule(
        config: NAdamConfig<S>,
        step: u64,
        beta2_pow_t: S::Wide,
        mu_product: S,
    ) -> NAdamRule<S> {
        let mu = S::rounded(Self::momentum_at(config, step));
        let mu_next = S::rounded(Self::momentum_after(config, step));
        NAdamRule {
            lr: config.lr,
            beta1: config.beta1,
            beta2: config.beta2,
            eps: config.eps,
            weight_decay: config.weight_decay,
            decoupled: config.decoupled_weight_decay,
            bc2: S::rounded(one::<S::Wide>().minus(beta2_pow_t)),
            coef_grad: config.lr.negated().times(one::<S>().minus(mu)).over(
                one::<S>().minus(mu_product),
            ),
            coef_exp_avg: config.lr.negated().times(mu_next).over(
                one::<S>().minus(mu_product.times(mu_next)),
            ),
        }
    }

    /// One step.
    pub open spec fn stepped(
        self,
        pairs: Seq<Pair<S>>,
    ) -> Result<(Seq<TensorModel<S>>, NAdamModel<S>), ErrorModel> {
        match step_error("NAdam", "exp_avg/exp_avg_sq", self.slots, pairs) {
            Some(e) => Err(e),
            None => match counted(self.step_count) {
                Err(e) => Err(e),
                Ok(step_count) => {
                    let beta2_pow_t = self.beta2_pow_t.times(self.config.beta2.widened());
                    let mu_product = self.mu_product.times(
                        S::rounded(Self::momentum_at(self.config, step_count)),
                    );
                    let rules = Seq::new(
                        pairs.len(),
                        |i: int| Self::rule(self.config, step_count, beta2_pow_t, mu_product),
                    );
                    let slots = started(self.slots, pairs, Cell2(zero::<S>(), zero::<S>()));
                    Ok(
                        (
                            moved_params(rules, pairs, slots),
                            NAdamModel {
                                config: self.config,
                                step_count,
                                beta2_pow_t,
                                mu_product,
                                slots: next_slots(rules, pairs, slots),
                            },
                        ),
                    )
                },
            },
        }
    }
}

fn momentum<S: Single>(config: &NAdamConfig<S>, time: S::Wide) -> (r: S::Wide)
    ensures
        r == NAdamModel::momentum(*config, time),
{
    let base: S::Wide = <S::Wide as Real>::literal(96, -2);
    let half: S::Wide = <S::Wide as Real>::literal(5, -1);
    let unit: S::Wide = <S::Wide as Real>::literal(1, 0);
    config.beta1.widen().mul(
        unit.sub(half.mul(base.powf(time.mul(config.momentum_decay.widen())))),
    )
}

/// The momentum factor at any time lies from zero to the first decay rate, in either
/// precision.
proof fn momentum_is_within_the_decay_rate<S: Single>(config: NAdamConfig<S>, time: S::Wide)
    requires
        fraction(config.beta1),
        non_negative(config.momentum_decay),
        non_negative(time),
    ensures
        in_unit_range(NAdamModel::momentum(config, time)),
        NAdamModel::momentum(config, time).at_most(config.beta1.widened()),
        fraction(S::rounded(NAdamModel::momentum(config, time))),
        S::rounded(NAdamModel::momentum(config, time)).at_most(config.beta1),
{
    let base = <S::Wide as Real>::decimal(96, -2);
    let half = <S::Wide as Real>::decimal(5, -1);
    <S::Wide as Real>::decimals(0, 0, 0);
    <S::Wide as Real>::decimals(0, 96, 2);
    <S::Wide as Real>::decimals(96, 100, 2);
    <S::Wide as Real>::decimals(10, 0, 1);
    <S::Wide as Real>::decimals(1, 0, 0);
    <S::Wide as Real>::decimals(0, 5, 1);
    <S::Wide as Real>::decimals(5, 10, 1);
    assert(in_unit_range(base));
    assert(in_unit_range(half));
    let decay = config.momentum_decay.widened();
    config.momentum_decay.precisions(decay);
    time.signs(decay);
    let power = base.raised(time.times(decay));
    base.powers(time.times(decay));
    unit_range_is_closed(half, power);
    unit_range_is_closed(half.times(power), one());
    widened_fraction_in_unit_range(config.beta1);
    let beta = config.beta1.widened();
    let kept = one::<S::Wide>().minus(half.times(power));
    unit_range_is_closed(beta, kept);
    beta.signs(kept);
    beta.neutral(kept);
    config.beta1.precisions(NAdamModel::momentum(config, time));
    S::rounded(NAdamModel::momentum(config, time)).order(config.beta1, one());
}

/// The momentum factors of a step and of the step after it lie from zero to the first
/// decay rate.
pub proof fn momentum_in_unit_range<S: Single>(config: NAdamConfig<S>, step: u64)
    requires
        fraction(config.beta1),
        non_negative(config.momentum_decay),
    ensures
        in_unit_range(NAdamModel::momentum_at(config, step)),
        in_unit_range(S::rounded(NAdamModel::momentum_at(config, step))),
        fraction(S::rounded(NAdamModel::momentum_at(config, step))),
        S::rounded(NAdamModel::momentum_at(config, step)).at_most(config.beta1),
        fraction(S::rounded(NAdamModel::momentum_after(config, step))),
        S::rounded(NAdamModel::momentum_after(config, step)).at_most(config.beta1),
{
    let time = <S::Wide as Double>::of_integer(step as u128);
    <S::Wide as Double>::integers(step as u128);
    zero_is_zero::<S::Wide>();
    time.signs(one());
    zero::<S::Wide>().order(time, time.plus(one()));
    momentum_is_within_the_decay_rate(config, time);
    momentum_is_within_the_decay_rate(config, time.plus(one()));
    unit_range_is_closed(S::rounded(NAdamModel::momentum_at(config, step)), one());
}

/// A step leads against the gradient that it uses, where the mean of the gradients
/// points the same way and what is added is not weighted the other way.
pub proof fn nadam_descends<S: Single>(rule: NAdamRule<S>, param: S, grad: S, cell: Cell2<S>)
    requires
        in_unit_range(rule.beta1),
        rule.coef_grad.at_most(zero()),
        rule.coef_exp_avg.at_most(zero()),
        zero::<S>().less(rule.eps),
        cell.0.finite(),
        rule.gradient(param, grad).finite(),
        sided(rule.gradient(param, grad), cell.0),
        is_number(rule.moved(param, grad, cell)),
    ensures
        against(rule.gradient(param, grad), rule.start(param), rule.moved(param, grad, cell)),
        sided(rule.gradient(param, grad), rule.next(param, grad, cell).0),
{
    let g = rule.gradient(param, grad);
    let start = rule.start(param);
    let next = rule.next(param, grad, cell);
    let r = next.1.over(rule.bc2);
    let denom = r.root().plus(rule.eps);
    let first = rule.coef_grad.times(g).over(denom);
    let second = rule.coef_exp_avg.times(next.0).over(denom);
    start.plus(first).fused_operands(second, second);
    start.fused_operands(first, first);
    rule.coef_grad.times(g).fused_operands(denom, denom);
    rule.coef_exp_avg.times(next.0).fused_operands(denom, denom);
    rule.coef_exp_avg.fused_operands(next.0, next.0);
    r.root().fused_operands(rule.eps, rule.eps);
    r.fused_operands(r, r);
    positive_sum(r.root(), rule.eps);
    sided_blend(g, cell.0, g, rule.beta1);
    turned_quotient(g, g, rule.coef_grad, denom);
    turned_quotient(g, next.0, rule.coef_exp_avg, denom);
    start.signs(first);
    start.plus(first).signs(second);
    start.order(start.plus(first), start.plus(first).plus(second));
    start.plus(first).plus(second).order(start.plus(first), start);
}

/// Neither the gradient nor the mean of the gradients is weighted upwards.
pub proof fn nadam_weights_lead_down<S: Single>(
    config: NAdamConfig<S>,
    step: u64,
    beta2_pow_t: S::Wide,
    mu_product: S,
)
    requires
        nadam_config_error(config) is None,
        fraction(mu_product),
        is_number(NAdamModel::rule(config, step, beta2_pow_t, mu_product).coef_grad),
        is_number(NAdamModel::rule(config, step, beta2_pow_t, mu_product).coef_exp_avg),
    ensures
        NAdamModel::rule(config, step, beta2_pow_t, mu_product).coef_grad.at_most(zero()),
        NAdamModel::rule(config, step, beta2_pow_t, mu_product).coef_exp_avg.at_most(zero()),
{
    let mu = S::rounded(NAdamModel::momentum_at(config, step));
    let mu_next = S::rounded(NAdamModel::momentum_after(config, step));
    let down = config.lr.negated();
    momentum_in_unit_range(config, step);
    unit_range_is_closed(mu, mu);
    unit_range_is_closed(mu_product, mu_next);
    unit_range_is_closed(mu_next, mu_product);
    zero_is_zero::<S>();
    config.lr.signs(config.lr);
    let kept = one::<S>().minus(mu);
    let left = one::<S>().minus(mu_product);
    let both = mu_product.times(mu_next);
    let left_next = one::<S>().minus(both);
    mu_product.signs(mu_next);
    mu_next.signs(mu_product);
    mu_product.neutral(mu_next);
    both.order(mu_product, one());
    one::<S>().signs(mu_product);
    one::<S>().signs(both);
    down.times(kept).fused_operands(left, left);
    down.times(mu_next).fused_operands(left_next, left);
    down.signs(kept);
    down.signs(mu_next);
    down.times(kept).signs(left);
    down.times(mu_next).signs(left_next);
}

/// The first step descends: without weight decay, an element whose gradient is not
/// negative does not grow, and one whose gradient is not positive does not shrink.
pub proof fn first_nadam_step_descends<S: Single>(
    config: NAdamConfig<S>,
    pairs: Seq<Pair<S>>,
    i: int,
    k: int,
)
    requires
        nadam_config_error(config) is None,
        config.weight_decay.same(zero()),
        0 <= i < pairs.len(),
        0 <= k < pairs[i].param.data.len(),
        pairs[i].grad.data[k].finite(),
        (NAdamModel {
            config,
            step_count: 0,
            beta2_pow_t: one(),
            mu_product: one(),
            slots: Seq::empty(),
        }).stepped(pairs) matches Ok((params, _)) && is_number(params[i].data[k]),
    ensures
        (NAdamModel {
            config,
            step_count: 0,
            beta2_pow_t: one(),
            mu_product: one(),
            slots: Seq::empty(),
        }).stepped(pairs) matches Ok((params, _)) && against(
            pairs[i].grad.data[k],
            pairs[i].param.data[k],
            params[i].data[k],
        ),
{
    let mu = S::rounded(NAdamModel::momentum_at(config, 1));
    let mu_product = one::<S>().times(mu);
    let pow = one::<S::Wide>().times(config.beta2.widened());
    let rule = NAdamModel::rule(config, 1, pow, mu_product);
    let param = pairs[i].param.data[k];
    let grad = pairs[i].grad.data[k];
    let cell = Cell2(zero::<S>(), zero::<S>());
    let g = rule.gradient(param, grad);
    let next = rule.next(param, grad, cell);
    let denom = next.1.over(rule.bc2).root().plus(rule.eps);
    let first = rule.coef_grad.times(g).over(denom);
    let second = rule.coef_exp_avg.times(next.0).over(denom);
    let start = rule.start(param);
    momentum_in_unit_range(config, 1);
    mu.neutral(one());
    one::<S>().neutral(mu);
    unit_range_is_closed(config.beta1, one());
    zero_is_zero::<S>();
    assert(rule.moved(param, grad, cell) == start.plus(first).plus(second));
    start.plus(first).fused_operands(second, second);
    start.fused_operands(first, first);
    rule.coef_grad.times(g).fused_operands(denom, denom);
    rule.coef_exp_avg.times(next.0).fused_operands(denom, denom);
    rule.coef_grad.fused_operands(g, g);
    rule.coef_exp_avg.fused_operands(next.0, g);
    nadam_weights_lead_down(config, 1, pow, mu_product);
    nadam_descends(rule, param, grad, cell);
}

/// What is added is divided by the root of the corrected mean of squares and epsilon: by
/// two and epsilon where that mean is four.
pub proof fn nadam_divides_by_the_root<S: Single>(
    rule: NAdamRule<S>,
    param: S,
    grad: S,
    cell: Cell2<S>,
)
    requires
        !rule.decoupled,
        rule.weight_decay.same(zero()),
        rule.next(param, grad, cell).1.over(rule.bc2) == S::decimal(4, 0),
    ensures
        ({
            let divisor = S::decimal(2, 0).plus(rule.eps);
            let mean = rule.next(param, grad, cell).0;
            rule.moved(param, grad, cell) == param.plus(
                rule.coef_grad.times(grad).over(divisor),
            ).plus(rule.coef_exp_avg.times(mean).over(divisor))
        }),
{
    one::<S>().neutral(one());
}

/// Decoupled decay leaves the gradient alone and draws the element towards zero, and
/// decay that is not decoupled leaves the element alone and goes into the gradient.
pub proof fn nadam_decay<S: Single>(rule: NAdamRule<S>, param: S, grad: S)
    requires
        in_unit_range(rule.lr.times(rule.weight_decay)),
        is_number(rule.start(param)),
    ensures
        rule.decoupled ==> {
            &&& rule.gradient(param, grad) == grad
            &&& sided(param, rule.start(param))
            &&& against(param, param, rule.start(param))
        },
        !rule.decoupled ==> {
            &&& rule.start(param) == param
            &&& zero::<S>().at_most(rule.weight_decay) && is_number(rule.gradient(param, grad))
                ==> against(param, rule.gradient(param, grad), grad)
        },
        rule.weight_decay.same(zero()) ==> rule.start(param) == param && rule.gradient(param, grad)
            == grad,
        rule.decoupled && rule.weight_decay == one::<S>() ==> rule.start(param) == param.times(
            one::<S>().minus(rule.lr),
        ),
        !rule.decoupled && rule.weight_decay == one::<S>() ==> rule.gradient(param, grad)
            == param.plus(grad),
{
    S::decimals(0, 1, 0);
    zero::<S>().order(one(), one());
    one::<S>().order(zero(), zero());
    rule.lr.neutral(one());
    grad.neutral(param);
    if rule.decoupled && !rule.weight_decay.same(zero()) {
        shrunk_number(param, rule.lr.times(rule.weight_decay));
    }
    if !rule.decoupled && zero::<S>().at_most(rule.weight_decay) && is_number(
        rule.gradient(param, grad),
    ) {
        decay_follows_the_parameter(rule.weight_decay, param, grad);
    }
}

/// The mean of the squares is not negative, is what it was where nothing is forgotten,
/// is the squared gradient where everything is, stays one under gradients of one, and
/// keeps the order of the means before the step. The mean of the gradients is bound in
/// the same way.
pub proof fn nadam_means<S: Single>(
    rule: NAdamRule<S>,
    param: S,
    grad: S,
    cell: Cell2<S>,
    higher: Cell2<S>,
)
    requires
        in_unit_range(rule.beta1),
        in_unit_range(rule.beta2),
        rule.gradient(param, grad).finite(),
        rule.gradient(param, grad).times(rule.gradient(param, grad)).finite(),
        cell.0.finite(),
        cell.1.finite(),
        rule.gradient(param, grad).minus(cell.0).finite(),
    ensures
        ({
            let g = rule.gradient(param, grad);
            let next = rule.next(param, grad, cell);
            let other = rule.next(param, grad, higher);
            &&& zero::<S>().at_most(cell.1) && is_number(next.1) ==> zero::<S>().at_most(next.1)
            &&& rule.beta2 == zero::<S>() ==> next.1.same(g.times(g))
            &&& rule.beta2 == one::<S>() ==> next.1.same(cell.1)
            &&& cell.1 == one::<S>() && g == one::<S>() ==> next.1 == one::<S>()
            &&& cell.1 == one::<S>() && g == zero::<S>() ==> next.1.same(rule.beta2)
            &&& cell.1.at_most(higher.1) && is_number(next.1) && is_number(other.1)
                ==> next.1.at_most(other.1)
            &&& rule.beta1 == zero::<S>() ==> next.0.same(g)
            &&& rule.beta1 == one::<S>() ==> next.0.same(cell.0)
            &&& cell.0 == g ==> next.0.same(g)
        }),
{
    let g = rule.gradient(param, grad);
    let next = rule.next(param, grad, cell);
    let rest = one::<S>().minus(rule.beta2);
    if zero::<S>().at_most(cell.1) && is_number(next.1) {
        average_of_squares(rule.beta2, cell.1, g);
    }
    squares_between_their_ends(cell.1, g);
    average_of_ones(rule.beta2);
    fading_average(rule.beta2);
    if cell.1.at_most(higher.1) {
        averages_are_ordered(rule.beta2, cell.1, higher.1, rest.times(g).times(g));
    }
    blend_between_its_ends(cell.0, g);
    rule.beta1.unit_interval(rule.beta1);
    blend_of_equals(g, one::<S>().minus(rule.beta1), rule.beta1);
}

/// Without momentum decay the momentum factor is half the first decay rate at any time.
/// After a time at which the decay comes to one, what is taken off the decay rate is half
/// of ninety-six hundredths of it. The factor after a step is that of the next step.
pub proof fn momentum_factor_decays<S: Single>(config: NAdamConfig<S>, time: S::Wide, step: u64)
    requires
        time.finite(),
        step <= 1_000_000_000,
    ensures
        config.momentum_decay == zero::<S>() ==> NAdamModel::momentum(config, time)
            == config.beta1.widened().times(<S::Wide as Real>::decimal(5, -1)),
        config.momentum_decay == one::<S>() && time == one::<S::Wide>() ==> NAdamModel::momentum(
            config,
            time,
        ) == config.beta1.widened().times(
            one::<S::Wide>().minus(
                <S::Wide as Real>::decimal(5, -1).times(<S::Wide as Real>::decimal(96, -2)),
            ),
        ),
        NAdamModel::momentum_after(config, step) == NAdamModel::momentum_at(
            config,
            (step + 1) as u64,
        ),
        config.beta1 == one::<S>() && config.momentum_decay == zero::<S>()
            ==> NAdamModel::momentum(config, time) == <S::Wide as Real>::decimal(5, -1),
{
    let base = <S::Wide as Real>::decimal(96, -2);
    let half = <S::Wide as Real>::decimal(5, -1);
    zero::<S>().precisions(zero());
    one::<S>().precisions(one());
    time.neutral(one());
    nothing_taken(time);
    base.powers(time.times(zero()));
    base.powers(one());
    one::<S::Wide>().neutral(one());
    half.neutral(one());
    one::<S::Wide>().neutral(half);
    <S::Wide as Double>::integers(step as u128);
}

/// At a learning rate of one and before any product of momentum factors has been built
/// up, the gradient is weighted by what the momentum factor of the step lacks of one, and
/// the mean of the gradients by the factor of the next step. Where the product is one,
/// the mean is weighted by the factor of the next step over what that lacks of one.
pub proof fn nadam_weights_come_from_the_momentum<S: Single>(
    config: NAdamConfig<S>,
    step: u64,
    beta2_pow_t: S::Wide,
)
    requires
        config.lr == one::<S>(),
        S::rounded(NAdamModel::momentum_after(config, step)).finite(),
    ensures
        ({
            let mu = S::rounded(NAdamModel::momentum_at(config, step));
            let mu_next = S::rounded(NAdamModel::momentum_after(config, step));
            let early = NAdamModel::rule(config, step, beta2_pow_t, zero::<S>());
            let late = NAdamModel::rule(config, step, beta2_pow_t, one::<S>());
            &&& early.coef_grad == one::<S>().minus(mu).negated()
            &&& early.coef_exp_avg == mu_next.negated()
            &&& late.coef_exp_avg == mu_next.negated().over(one::<S>().minus(mu_next))
        }),
{
    let mu = S::rounded(NAdamModel::momentum_at(config, step));
    let mu_next = S::rounded(NAdamModel::momentum_after(config, step));
    one::<S>().minus(mu).neutral(one());
    mu_next.neutral(zero());
    mu_next.neutral(one());
    one::<S>().neutral(mu_next);
    zero::<S>().neutral(mu_next);
    one::<S>().neutral(one());
    one::<S>().minus(mu).negated().neutral(one());
    mu_next.negated().neutral(one());
}

/// The correction of the mean of squares goes by the power of the second decay rate: it
/// lies from zero to one, is one once the decay rate has died away, and rises until then.
pub proof fn nadam_correction_dies_away<S: Single>(
    config: NAdamConfig<S>,
    step: u64,
    beta2_pow_t: S::Wide,
    later: S::Wide,
    mu_product: S,
)
    requires
        in_unit_range(beta2_pow_t),
        in_unit_range(later),
        later.at_most(beta2_pow_t),
    ensures
        ({
            let rule = NAdamModel::rule(config, step, beta2_pow_t, mu_product);
            &&& in_unit_range(rule.bc2)
            &&& beta2_pow_t == zero::<S::Wide>() ==> rule.bc2 == one::<S>()
            &&& one::<S::Wide>().minus(beta2_pow_t) == <S::Wide as Real>::decimal(25, -2)
                ==> rule.bc2 == S::rounded(<S::Wide as Real>::decimal(25, -2))
            &&& rule.bc2.at_most(NAdamModel::rule(config, step, later, mu_product).bc2)
            &&& rule.lr == config.lr && rule.eps == config.eps && rule.decoupled
                == config.decoupled_weight_decay && rule.weight_decay == config.weight_decay
            &&& rule.beta1 == config.beta1 && rule.beta2 == config.beta2
        }),
{
    plain_corrections::<S>(beta2_pow_t, later);
}

/// The power of the second decay rate and the product of the momentum factors start at
/// one: the first step multiplies them up to the decay rate and to the factor of the
/// first step. Every step counts.
pub proof fn nadam_products_start_with_the_factors<S: Single>(
    optimizer: NAdamModel<S>,
    pairs: Seq<Pair<S>>,
)
    requires
        optimizer.stepped(pairs) is Ok,
    ensures
        optimizer.stepped(pairs) matches Ok((_, next)) && {
            &&& next.step_count == optimizer.step_count + 1
            &&& next.config == optimizer.config
            &&& optimizer.beta2_pow_t == one::<S::Wide>() ==> next.beta2_pow_t
                == optimizer.config.beta2.widened()
            &&& optimizer.mu_product == one::<S>() ==> next.mu_product == S::rounded(
                NAdamModel::momentum_at(optimizer.config, (optimizer.step_count + 1) as u64),
            )
        },
{
    let b = optimizer.config.beta2.widened();
    b.neutral(one());
    one::<S::Wide>().neutral(b);
    let mu = S::rounded(
        NAdamModel::momentum_at(optimizer.config, (optimizer.step_count + 1) as u64),
    );
    mu.neutral(one());
    one::<S>().neutral(mu);
}

/// The NAdam optimizer.
pub struct NAdam<S: Single> {
    config: NAdamConfig<S>,
    step_count: u64,
    beta2_pow_t: S::Wide,
    mu_product: S,
    slots: Vec<Slot<Cell2<S>>>,
}

impl<S: Single> View for NAdam<S> {
    type V = NAdamModel<S>;

    closed spec fn view(&self) -> NAdamModel<S> {
        NAdamModel {
            config: self.config,
            step_count: self.step_count,
            beta2_pow_t: self.beta2_pow_t,
            mu_product: self.mu_product,
            slots: slot_models(self.slots@),
        }
    }
}

impl<S: Single> NAdam<S> {
    #[verifier::type_invariant]
    spec fn wf(&self) -> bool {
        &&& fraction(self.config.beta1)
        &&& fraction(self.config.beta2)
        &&& non_negative(self.config.momentum_decay)
        &&& in_unit_range(self.beta2_pow_t)
        &&& in_unit_range(self.mu_product)
    }

    /// An optimizer that has taken no step.
    pub fn new(config: NAdamConfig<S>) -> (r: Result<NAdam<S>, AutodiffError>)
        ensures
            match r {
                Ok(optimizer) => {
                    &&& nadam_config_error(config) is None
                    &&& optimizer@ == (NAdamModel {
                        config,
                        step_count: 0,
                        beta2_pow_t: one(),
                        mu_product: one(),
                        slots: Seq::empty(),
                    })
                },
                Err(e) => nadam_config_error(config) == Some(e@),
            },
    {
        if !is_non_negative(config.lr) {
            return Err(tell("NAdam::new: lr must be finite and >= 0.0, got ", config.lr));
        }
        if !is_fraction(config.beta1) {
            return Err(tell("NAdam::new: beta1 must be in [0.0, 1.0), got ", config.beta1));
        }
        if !is_fraction(config.beta2) {
            return Err(tell("NAdam::new: beta2 must be in [0.0, 1.0), got ", config.beta2));
        }
        if !is_positive(config.eps) {
            return Err(tell("NAdam::new: eps must be finite and > 0.0, got ", config.eps));
        }
        if !is_non_negative(config.weight_decay) {
            return Err(
                tell(
                    "NAdam::new: weight_decay must be finite and >= 0.0, got ",
                    config.weight_decay,
                ),
            );
        }
        if !is_non_negative(config.momentum_decay) {
            return Err(
                tell(
                    "NAdam::new: momentum_decay must be finite and >= 0.0, got ",
                    config.momentum_decay,
                ),
            );
        }
        proof {
            unit_range_is_closed(one::<S::Wide>(), one());
            unit_range_is_closed(one::<S>(), one());
        }
        let r = NAdam {
            config,
            step_count: 0,
            beta2_pow_t: <S::Wide as Real>::literal(1, 0),
            mu_product: S::literal(1, 0),
            slots: Vec::new(),
        };
        assert(r@.slots =~= Seq::empty());
        Ok(r)
    }

    pub fn config(&self) -> (r: &NAdamConfig<S>)
        ensures
            *r == self@.config,
    {
        &self.config
    }

    /// The number of steps taken.
    pub fn step_count(&self) -> (r: u64)
        ensures
            r == self@.step_count,
    {
        self.step_count
    }

    /// Replaces the learning rate and leaves everything else as it is.
    pub fn set_lr(&mut self, new_lr: S) -> (r: Result<(), AutodiffError>)
        ensures
            match r {
                Ok(_) => {
                    &&& non_negative(new_lr)
                    &&& final(self)@ == (NAdamModel {
                        config: NAdamConfig { lr: new_lr, ..old(self)@.config },
                        ..old(self)@
                    })
                },
                Err(e) => {
                    &&& !non_negative(new_lr)
                    &&& e@ == told("NAdam::set_lr: lr must be finite and >= 0.0, got ", new_lr)
                    &&& final(self)@ == old(self)@
                },
            },
    {
        if !is_non_negative(new_lr) {
            return Err(tell("NAdam::set_lr: lr must be finite and >= 0.0, got ", new_lr));
        }
        proof {
            use_type_invariant(&*self);
        }
        self.config.lr = new_lr;
        Ok(())
    }

    /// One step. Returns the parameters after the step, in the order in which they
    /// were given.
    pub fn step(&mut self, params_and_grads: &[(&Tensor<S>, &Tensor<S>)]) -> (r: Result<
        Vec<Tensor<S>>,
        AutodiffError,
    >)
        ensures
            answers(
                r,
                old(self)@.stepped(inputs(params_and_grads@)),
                old(self)@,
                final(self)@,
            ),
    {
        match check_step("NAdam", "exp_avg/exp_avg_sq", &self.slots, params_and_grads) {
            Err(e) => {
                return Err(e);
            },
            Ok(_) => {},
        }
        let step_count: u64 = match count_step(self.step_count) {
            Err(e) => {
                return Err(e);
            },
            Ok(step_count) => step_count,
        };
        let unit: S = S::literal(1, 0);
        let beta2_pow_t: S::Wide = self.beta2_pow_t.mul(self.config.beta2.widen());
        let time: S::Wide = <S::Wide as Double>::from_integer(step_count as u128);
        let mu: S = S::round(momentum(&self.config, time));
        let mu_next: S = S::round(momentum(&self.config, time.add(<S::Wide as Real>::literal(1, 0))));
        let mu_product: S = self.mu_product.mul(mu);
        let rule = NAdamRule {
            lr: self.config.lr,
            beta1: self.config.beta1,
            beta2: self.config.beta2,
            eps: self.config.eps,
            weight_decay: self.config.weight_decay,
            decoupled: self.config.decoupled_weight_decay,
            bc2: S::round(<S::Wide as Real>::literal(1, 0).sub(beta2_pow_t)),
            coef_grad: self.config.lr.neg().mul(unit.sub(mu)).div(unit.sub(mu_product)),
            coef_exp_avg: self.config.lr.neg().mul(mu_next).div(unit.sub(mu_product.mul(mu_next))),
        };
        let rules: Vec<NAdamRule<S>> = repeated(rule, params_and_grads.len());
        let blank = Cell2(S::literal(0, 0), S::literal(0, 0));
        proof {
            accepted_step_is_aligned(
                "NAdam",
                "exp_avg/exp_avg_sq",
                slot_models(self.slots@),
                inputs(params_and_grads@),
                blank,
            );
            assert(rules@ =~= Seq::new(
                inputs(params_and_grads@).len(),
                |k: int| NAdamModel::rule(self.config, step_count, beta2_pow_t, mu_product),
            ));
        }
        let slots: Vec<Slot<Cell2<S>>> = start(&self.slots, params_and_grads, blank);
        let (params, next) = advance(&rules, params_and_grads, &slots);
        proof {
            use_type_invariant(&*self);
            widened_fraction_in_unit_range(self.config.beta2);
            unit_range_is_closed(self.beta2_pow_t, self.config.beta2.widened());
            momentum_in_unit_range(self.config, step_count);
            unit_range_is_closed(self.mu_product, mu);
        }
        self.step_count = step_count;
        self.beta2_pow_t = beta2_pow_t;
        self.mu_product = mu_product;
        self.slots = next;
        Ok(params)
    }
}

impl<S: Single> OptimizerStateDict<S> for NAdam<S> {
    open spec fn layout() -> Layout {
        Layout {
            kind: "nadam"@,
            buffers: seq!["exp_avg"@, "exp_avg_sq"@],
            has_beta1: false,
            has_beta2: true,
            has_mu_product: true,
        }
    }

    open spec fn accumulated(&self) -> StateModel<S> {
        StateModel {
            step_count: self@.step_count,
            beta1_pow_t: None,
            beta2_pow_t: Some(self@.beta2_pow_t),
            mu_product: Some(self@.mu_product),
            slots: slots_data(self@.slots),
        }
    }

    open spec fn same_settings(&self, other: &Self) -> bool {
        self@.config == other@.config
    }

    fn state_dict(&self) -> (r: Result<StateDict<S>, AutodiffError>) {
        let names: [&str; 2] = ["exp_avg", "exp_avg_sq"];
        proof {
            use_type_invariant(self);
            reveal_strlit("exp_avg");
            reveal_strlit("exp_avg_sq");
            assert("exp_avg"@.len() != "exp_avg_sq"@.len());
            assert(names@.map_values(|name: &str| name@) =~= Self::layout().buffers);
        }
        let state = DecodedState {
            step_count: self.step_count,
            beta1_pow_t: None,
            beta2_pow_t: Some(self.beta2_pow_t),
            mu_product: Some(self.mu_product),
            slots: export_slots(&self.slots),
        };
        assert(state@ =~= self.accumulated());
        Ok(encode_state_dict("nadam", &names, &state))
    }

    fn load_state_dict(&mut self, state: StateDict<S>) -> (r: Result<(), AutodiffError>) {
        let names: [&str; 2] = ["exp_avg", "exp_avg_sq"];
        assert(names@.map_values(|name: &str| name@) =~= Self::layout().buffers);
        match decode_state_dict("nadam", &state, &names, false, true, true) {
            Err(e) => Err(e),
            Ok(decoded) => {
                proof {
                    use_type_invariant(&*self);
                    decoded_slots_fit(state@, Self::layout(), decoded);
                }
                self.step_count = decoded.step_count;
                match decoded.beta2_pow_t {
                    Some(value) => {
                        self.beta2_pow_t = value;
                    },
                    None => {},
                }
                match decoded.mu_product {
                    Some(value) => {
                        self.mu_product = value;
                    },
                    None => {},
                }
                self.slots = import_slots(&decoded.slots);
                assert(self.accumulated() =~= decoded@);
                Ok(())
            },
        }
    }
}

/// An optimizer that takes over a saved state is in all respects like the one that
/// saved it, if both have the same settings. The state is accepted unless the
/// counter of steps is at its end, where no further step could be counted.
pub proof fn nadam_resumes_from_its_saved_state<S: Single>(
    saved: NAdam<S>,
    dict: StateDict<S>,
    resumed: NAdam<S>,
)
    requires
        saves(dict@, NAdam::<S>::layout(), saved.accumulated()),
        saved@.step_count <= largest_step_count(true),
        resumed.same_settings(&saved),
    ensures
        restored(dict@, NAdam::<S>::layout()) == Ok::<_, ErrorModel>(saved.accumulated()),
        restored(dict@, NAdam::<S>::layout()) == Ok::<_, ErrorModel>(resumed.accumulated())
            ==> resumed@ == saved@,
{
    reveal_strlit("exp_avg");
    reveal_strlit("exp_avg_sq");
    assert("exp_avg"@.len() != "exp_avg_sq"@.len());
    dict.entries_are_countable();
    saved_state_is_restored(dict@, NAdam::<S>::layout(), saved.accumulated());
    if resumed.accumulated() == saved.accumulated() {
        buffers_determine_slots::<S, _>(resumed@.slots, saved@.slots);
    }
}

} // verus!
