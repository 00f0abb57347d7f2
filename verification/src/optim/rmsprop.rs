//! RMSprop, optionally centered and with momentum.
use crate::dict::StateDict;
use crate::error::{AutodiffError, ErrorModel, tell, told};
use crate::number::{
    Single, fraction, in_unit_range, is_fraction, is_non_negative, is_number, is_positive,
    non_negative, one, positive, zero,
};
use crate::optim::param_group::{
    ParamGroup, ParamGroupStep, SlotHparams, SlotwiseStep, answers, check_len_matches,
    resolve_slot_hparams, zip_params_grads,
};
use crate::optim::slots::{
    Cell3, Pair, Rule, Slot, SlotModel, accepted_step_is_aligned, advance, blend, blended,
    buffers_determine_slots, check_step, count_step, counted, decay_gradient, decayed, export_slots,
    import_slots, inputs, moved_params, next_slots, repeated, slot_models, slots_data, start,
    started, step_error,
};
use crate::optim::state_dict::{
    DecodedState, Layout, OptimizerStateDict, StateModel, decode_state_dict, decoded_slots_fit,
    encode_state_dict, largest_step_count, restored, saved_state_is_restored, saves,
};
use crate::tensor::{Tensor, TensorModel};
use crate::optim::direction::{
    against, aligned_product, average_of_ones, average_of_squares, averages_are_ordered,
    blend_between_its_ends, blend_of_equals, difference_leads_against, fading_average,
    larger_dividend_lengthens_the_way, larger_divisor_shortens_the_way, number_has_a_side,
    positive_sum, quotient_leads_against, roots_and_sums_are_ordered, sided, sided_blend,
    sided_fused, sided_product, sided_quotient, squares_between_their_ends, zero_is_zero,
};
use vstd::prelude::*;

verus! {

/// Hyperparameters of [`RmsProp`].
#[derive(Debug, Clone, Copy, PartialEq)]
pub struct RmsPropConfig<S> {
    pub lr: S,
    pub alpha: S,
    pub eps: S,
    pub weight_decay: S,
    pub momentum: S,
    /// Whether the mean of the gradients is subtracted.
    pub centered: bool,
}

impl<S: Single> Default for RmsPropConfig<S> {
    fn default() -> (r: Self)
        ensures
            r == (RmsPropConfig {
                lr: S::decimal(1, -2),
                alpha: S::decimal(99, -2),
                eps: S::decimal(1, -8),
                weight_decay: S::decimal(0, 0),
                momentum: S::decimal(0, 0),
                centered: false,
            }),
    {
        RmsPropConfig {
            lr: S::literal(1, -2),
            alpha: S::literal(99, -2),
            eps: S::literal(1, -8),
            weight_decay: S::literal(0, 0),
            momentum: S::literal(0, 0),
            centered: false,
        }
    }
}

/// Why hyperparameters are refused, if they are.
pub open spec fn rmsprop_config_error<S: Single>(config: RmsPropConfig<S>) -> Option<ErrorModel> {
    if !non_negative(config.lr) {
        Some(told("RmsProp::new: lr must be finite and >= 0.0, got ", config.lr))
    } else if !fraction(config.alpha) {
        Some(told("RmsProp::new: alpha must be in [0.0, 1.0), got ", config.alpha))
    } else if !positive(config.eps) {
        Some(told("RmsProp::new: eps must be finite and > 0.0, got ", config.eps))
    } else if !non_negative(config.weight_decay) {
        Some(
            told("RmsProp::new: weight_decay must be finite and >= 0.0, got ", config.weight_decay),
        )
    } else if !non_negative(config.momentum) {
        Some(told("RmsProp::new: momentum must be finite and >= 0.0, got ", config.momentum))
    } else {
        None
    }
}

/// What the elements of one slot go through in one step.
#[derive(Clone, Copy)]
pub struct RmsPropRule<S> {
    pub lr: S,
    pub alpha: S,
    pub eps: S,
    pub weight_decay: S,
    pub momentum: S,
    pub centered: bool,
}

impl<S: Single> RmsPropRule<S> {
    /// What a gradient is divided by.
    pub open spec fn scale(self, square_avg: S, grad_avg: S) -> S {
        if self.centered {
            square_avg.minus(grad_avg.times(grad_avg)).root().plus(self.eps)
        } else {
            square_avg.root().plus(self.eps)
        }
    }
}

impl<S: Single> Rule<S, Cell3<S>> for RmsPropRule<S> {
    open spec fn moved(self, param: S, grad: S, cell: Cell3<S>) -> S {
        let g = decayed(self.weight_decay, param, grad);
        let Cell3(square_avg, grad_avg, momentum_buffer) = self.next(param, grad, cell);
        if zero::<S>().less(self.momentum) {
            param.minus(self.lr.times(momentum_buffer))
        } else {
            param.minus(self.lr.times(g).over(self.scale(square_avg, grad_avg)))
        }
    }

    open spec fn next(self, param: S, grad: S, cell: Cell3<S>) -> Cell3<S> {
        let g = decayed(self.weight_decay, param, grad);
        let rest = one::<S>().minus(self.alpha);
        let square_avg = self.alpha.fused(cell.0, rest.times(g).times(g));
        let grad_avg = if self.centered {
            blended(cell.1, g, rest, self.alpha)
        } else {
            cell.1
        };
        let momentum_buffer = if zero::<S>().less(self.momentum) {
            self.momentum.fused(cell.2, g.over(self.scale(square_avg, grad_avg)))
        } else {
            cell.2
        };
        Cell3(square_avg, grad_avg, momentum_buffer)
    }

    fn apply(&self, param: S, grad: S, cell: Cell3<S>) -> (r: (S, Cell3<S>)) {
        let g: S = decay_gradient(self.weight_decay, param, grad);
        let rest: S = S::literal(1, 0).sub(self.alpha);
        let square_avg: S = self.alpha.mul_add(cell.0, rest.mul(g).mul(g));
        let grad_avg: S = if self.centered {
            blend(cell.1, g, rest, self.alpha)
        } else {
            cell.1
        };
        let avg: S = if self.centered {
            square_avg.sub(grad_avg.mul(grad_avg)).sqrt()
        } else {
            square_avg.sqrt()
        };
        let avg: S = avg.add(self.eps);
        if S::literal(0, 0).lt(self.momentum) {
            let momentum_buffer: S = self.momentum.mul_add(cell.2, g.div(avg));
            (
                param.sub(self.lr.mul(momentum_buffer)),
                Cell3(square_avg, grad_avg, momentum_buffer),
            )
        } else {
            (param.sub(self.lr.mul(g).div(avg)), Cell3(square_avg, grad_avg, cell.2))
        }
    }
}

/// What a gradient is divided by is positive wherever the quotient is a number.
proof fn scale_is_positive<S: Single>(rule: RmsPropRule<S>, g: S, square_avg: S, grad_avg: S)
    requires
        zero::<S>().less(rule.eps),
        is_number(g.over(rule.scale(square_avg, grad_avg))),
    ensures
        zero::<S>().less(rule.scale(square_avg, grad_avg)),
{
    let scale = rule.scale(square_avg, grad_avg);
    g.fused_operands(scale, g);
    if rule.centered {
        let spread = square_avg.minus(grad_avg.times(grad_avg));
        spread.root().fused_operands(rule.eps, g);
        spread.fused_operands(spread, spread);
        positive_sum(spread.root(), rule.eps);
    } else {
        square_avg.root().fused_operands(rule.eps, g);
        square_avg.fused_operands(square_avg, square_avg);
        positive_sum(square_avg.root(), rule.eps);
    }
}

/// A step leads against the gradient, weight decay included. With momentum above zero,
/// where the momentum buffer points where the gradient does, it still does after the
/// step, and is then at least as far out as the scaled gradient that went into it.
pub proof fn rmsprop_descends<S: Single>(rule: RmsPropRule<S>, param: S, grad: S, cell: Cell3<S>)
    requires
        zero::<S>().at_most(rule.lr),
        zero::<S>().less(rule.eps),
        sided(decayed(rule.weight_decay, param, grad), cell.2),
        is_number(rule.moved(param, grad, cell)),
    ensures
        ({
            let g = decayed(rule.weight_decay, param, grad);
            let next = rule.next(param, grad, cell);
            let spread = if rule.centered {
                next.0.minus(next.1.times(next.1))
            } else {
                next.0
            };
            &&& against(g, param, rule.moved(param, grad, cell))
            &&& zero::<S>().less(rule.momentum) ==> {
                &&& sided(g, next.2)
                &&& against(g, next.2, g.over(spread.root().plus(rule.eps)))
            }
            &&& !zero::<S>().less(rule.momentum) ==> next.2 == cell.2
        }),
{
    let g = decayed(rule.weight_decay, param, grad);
    let next = rule.next(param, grad, cell);
    let scale = rule.scale(next.0, next.1);
    if zero::<S>().less(rule.momentum) {
        let way = rule.lr.times(next.2);
        param.fused_operands(way, way);
        rule.lr.fused_operands(next.2, way);
        rule.momentum.fused_operands(cell.2, g.over(scale));
        scale_is_positive(rule, g, next.0, next.1);
        g.fused_operands(scale, g);
        sided_quotient(g, g, scale);
        zero::<S>().order(rule.momentum, rule.momentum);
        sided_fused(g, rule.momentum, cell.2, g.over(scale));
        sided_product(g, next.2, rule.lr);
        difference_leads_against(g, param, way);
    } else {
        let way = rule.lr.times(g);
        param.fused_operands(way.over(scale), way);
        scale_is_positive(rule, way, next.0, next.1);
        way.fused_operands(scale, way);
        sided_product(g, g, rule.lr);
        quotient_leads_against(g, param, way, scale);
    }
}

/// With momentum one the buffer adds up the scaled gradients: the next buffer is the
/// old one plus the gradient over the root of the mean square and epsilon, and the
/// parameter goes back by the learning rate times the buffer.
pub proof fn full_momentum_adds_up<S: Single>(
    rule: RmsPropRule<S>,
    param: S,
    grad: S,
    cell: Cell3<S>,
)
    requires
        rule.momentum == one::<S>(),
        rule.weight_decay.same(zero()),
        !rule.centered,
    ensures
        ({
            let next = rule.next(param, grad, cell);
            &&& next.2 == cell.2.plus(grad.over(next.0.root().plus(rule.eps)))
            &&& next.1 == cell.1
            &&& rule.moved(param, grad, cell) == param.minus(rule.lr.times(next.2))
            &&& rule.lr == one::<S>() ==> rule.moved(param, grad, cell) == param.minus(next.2)
        }),
{
    let next = rule.next(param, grad, cell);
    S::decimals(0, 1, 0);
    let scaled = grad.over(rule.scale(next.0, next.1));
    scaled.neutral(cell.2);
    next.2.neutral(one());
    one::<S>().neutral(next.2);
}

/// The mean of the squares is not negative, is what it was where nothing is forgotten,
/// is the squared gradient where everything is, stays one under gradients of one, and
/// keeps the order of the means before the step. The mean of the gradients, where the
/// optimizer is centered, is bound in the same way.
pub proof fn rmsprop_means<S: Single>(
    rule: RmsPropRule<S>,
    param: S,
    grad: S,
    cell: Cell3<S>,
    higher: Cell3<S>,
)
    requires
        in_unit_range(rule.alpha),
    ensures
        ({
            let g = decayed(rule.weight_decay, param, grad);
            let next = rule.next(param, grad, cell);
            let other = rule.next(param, grad, higher);
            &&& zero::<S>().at_most(cell.0) && is_number(next.0) ==> zero::<S>().at_most(next.0)
            &&& cell.0.finite() && g.times(g).finite() ==> {
                &&& rule.alpha == zero::<S>() ==> next.0.same(g.times(g))
                &&& g.finite() && rule.alpha == one::<S>() ==> next.0.same(cell.0)
            }
            &&& cell.0 == one::<S>() && g == one::<S>() ==> next.0 == one::<S>()
            &&& cell.0 == one::<S>() && g == zero::<S>() ==> next.0.same(rule.alpha)
            &&& cell.0.at_most(higher.0) && is_number(next.0) && is_number(other.0)
                ==> next.0.at_most(other.0)
            &&& rule.centered && cell.1.finite() && g.finite() && g.minus(cell.1).finite() ==> {
                &&& rule.alpha == zero::<S>() ==> next.1.same(g)
                &&& rule.alpha == one::<S>() ==> next.1.same(cell.1)
                &&& cell.1 == g ==> next.1.same(g)
                &&& sided(g, cell.1) && is_number(next.1) ==> sided(g, next.1)
            }
            &&& !rule.centered ==> next.1 == cell.1
        }),
{
    let g = decayed(rule.weight_decay, param, grad);
    let next = rule.next(param, grad, cell);
    let rest = one::<S>().minus(rule.alpha);
    if zero::<S>().at_most(cell.0) && is_number(next.0) {
        average_of_squares(rule.alpha, cell.0, g);
    }
    if cell.0.finite() && g.times(g).finite() {
        squares_between_their_ends(cell.0, g);
    }
    average_of_ones(rule.alpha);
    fading_average(rule.alpha);
    if cell.0.at_most(higher.0) {
        averages_are_ordered(rule.alpha, cell.0, higher.0, rest.times(g).times(g));
    }
    if rule.centered && cell.1.finite() && g.finite() && g.minus(cell.1).finite() {
        blend_between_its_ends(cell.1, g);
        rule.alpha.unit_interval(rule.alpha);
        blend_of_equals(g, rest, rule.alpha);
        if sided(g, cell.1) && is_number(next.1) {
            sided_blend(g, cell.1, g, rule.alpha);
        }
    }
}

/// With momentum above zero the element goes back by the learning rate times the momentum
/// buffer after the step, and of a buffer of one the momentum is left. Without momentum
/// and with a mean of squares of four it goes back by the learning rate times the gradient
/// over two and epsilon.
pub proof fn rmsprop_goes_back_by_the_learning_rate<S: Single>(
    rule: RmsPropRule<S>,
    param: S,
    grad: S,
    cell: Cell3<S>,
)
    requires
        rule.weight_decay.same(zero()),
    ensures
        ({
            let next = rule.next(param, grad, cell);
            let moved = rule.moved(param, grad, cell);
            &&& zero::<S>().less(rule.momentum) ==> moved == param.minus(rule.lr.times(next.2))
            &&& zero::<S>().less(rule.momentum) && cell.2 == one::<S>() && !rule.centered
                ==> next.2 == rule.momentum.plus(grad.over(next.0.root().plus(rule.eps)))
            &&& !zero::<S>().less(rule.momentum) && !rule.centered && next.0 == S::decimal(4, 0)
                ==> moved == param.minus(
                rule.lr.times(grad).over(S::decimal(2, 0).plus(rule.eps)),
            )
            &&& !zero::<S>().less(rule.momentum) && rule.centered && next.0 == S::decimal(5, 0)
                && next.1 == one::<S>() ==> moved == param.minus(
                rule.lr.times(grad).over(S::decimal(2, 0).plus(rule.eps)),
            )
        }),
{
    let scaled = grad.over(rule.scale(rule.next(param, grad, cell).0, cell.1));
    one::<S>().neutral(one());
    S::decimals(5, 1, 0);
    rule.momentum.fused_operands(one(), scaled);
    scaled.neutral(rule.momentum);
}

/// Without momentum a larger epsilon and a larger mean of squares make the step
/// shorter, and a larger learning rate makes it longer. Taking off the mean of the
/// gradients makes it longer too.
pub proof fn rmsprop_step_lengths<S: Single>(
    rule: RmsPropRule<S>,
    other: RmsPropRule<S>,
    param: S,
    grad: S,
    cell: Cell3<S>,
    higher: Cell3<S>,
)
    requires
        in_unit_range(rule.alpha),
        zero::<S>().at_most(rule.lr),
        zero::<S>().less(rule.eps),
        zero::<S>().at_most(cell.0),
        !zero::<S>().less(rule.momentum),
        is_number(rule.moved(param, grad, cell)),
    ensures
        ({
            let g = decayed(rule.weight_decay, param, grad);
            let moved = rule.moved(param, grad, cell);
            &&& rule.eps.at_most(other.eps) && other == (RmsPropRule { eps: other.eps, ..rule })
                && is_number(other.moved(param, grad, cell)) ==> against(
                g,
                other.moved(param, grad, cell),
                moved,
            )
            &&& rule.lr.at_most(other.lr) && other == (RmsPropRule { lr: other.lr, ..rule })
                && is_number(other.moved(param, grad, cell)) ==> against(
                g,
                moved,
                other.moved(param, grad, cell),
            )
            &&& cell.0.at_most(higher.0) && cell.1 == higher.1 && is_number(
                rule.moved(param, grad, higher),
            ) ==> against(g, rule.moved(param, grad, higher), moved)
            &&& !rule.centered && other == (RmsPropRule { centered: true, ..rule }) && is_number(
                other.moved(param, grad, cell),
            ) ==> against(g, moved, other.moved(param, grad, cell))
        }),
{
    let g = decayed(rule.weight_decay, param, grad);
    let way = rule.lr.times(g);
    let next = rule.next(param, grad, cell);
    let scale = rule.scale(next.0, next.1);
    param.fused_operands(way.over(scale), way);
    way.fused_operands(scale, way);
    rule.lr.fused_operands(g, g);
    scale_is_positive(rule, way, next.0, next.1);
    sided_product(g, g, rule.lr);
    if is_number(other.moved(param, grad, cell)) {
        if rule.eps.at_most(other.eps) && other == (RmsPropRule { eps: other.eps, ..rule }) {
            let wider = other.scale(next.0, next.1);
            means_under_scales_are_numbers(rule, next.0, next.1);
            param.fused_operands(way.over(wider), way);
            way.fused_operands(wider, way);
            scales_are_ordered(rule, other, next.0, next.0, next.1);
            larger_divisor_shortens_the_way(g, param, way, scale, wider);
        }
        if rule.lr.at_most(other.lr) && other == (RmsPropRule { lr: other.lr, ..rule }) {
            let further = other.lr.times(g);
            param.fused_operands(further.over(scale), way);
            further.fused_operands(scale, way);
            rule.lr.order(other.lr, g);
            larger_dividend_lengthens_the_way(g, param, way, further, scale);
        }
    }
    if cell.0.at_most(higher.0) && cell.1 == higher.1 && is_number(
        rule.moved(param, grad, higher),
    ) {
        let after = rule.next(param, grad, higher);
        let wider = rule.scale(after.0, after.1);
        param.fused_operands(way.over(wider), way);
        way.fused_operands(wider, way);
        means_under_scales_are_numbers(rule, next.0, next.1);
        means_under_scales_are_numbers(rule, after.0, after.1);
        average_of_squares(rule.alpha, cell.0, g);
        averages_are_ordered(
            rule.alpha,
            cell.0,
            higher.0,
            one::<S>().minus(rule.alpha).times(g).times(g),
        );
        zero::<S>().order(rule.eps, rule.eps);
        scales_are_ordered(rule, rule, next.0, after.0, next.1);
        larger_divisor_shortens_the_way(g, param, way, scale, wider);
    }
    if !rule.centered && other == (RmsPropRule { centered: true, ..rule }) && is_number(
        other.moved(param, grad, cell),
    ) {
        let after = other.next(param, grad, cell);
        let narrower = other.scale(after.0, after.1);
        param.fused_operands(way.over(narrower), way);
        way.fused_operands(narrower, way);
        scale_is_positive(other, way, after.0, after.1);
        means_under_scales_are_numbers(rule, next.0, next.1);
        means_under_scales_are_numbers(other, after.0, after.1);
        average_of_squares(rule.alpha, cell.0, g);
        number_has_a_side(after.1);
        aligned_product(after.1, after.1);
        after.0.signs(after.1.times(after.1));
        zero::<S>().order(rule.eps, rule.eps);
        roots_and_sums_are_ordered(
            after.0.minus(after.1.times(after.1)),
            after.0,
            rule.eps,
            rule.eps,
        );
        larger_divisor_shortens_the_way(g, param, way, narrower, scale);
    }
}

proof fn scales_are_ordered<S: Single>(
    rule: RmsPropRule<S>,
    other: RmsPropRule<S>,
    low: S,
    high: S,
    grad_avg: S,
)
    requires
        zero::<S>().less(rule.eps),
        rule.eps.at_most(other.eps),
        rule.centered == other.centered,
        low.at_most(high),
        is_number(rule.scale(low, grad_avg)),
        is_number(other.scale(high, grad_avg)),
    ensures
        rule.scale(low, grad_avg).at_most(other.scale(high, grad_avg)),
{
    let square = grad_avg.times(grad_avg);
    zero::<S>().order(rule.eps, rule.eps);
    means_under_scales_are_numbers(rule, low, grad_avg);
    means_under_scales_are_numbers(other, high, grad_avg);
    if rule.centered {
        low.order(high, square);
        roots_and_sums_are_ordered(low.minus(square), high.minus(square), rule.eps, other.eps);
    } else {
        roots_and_sums_are_ordered(low, high, rule.eps, other.eps);
    }
}

proof fn means_under_scales_are_numbers<S: Single>(
    rule: RmsPropRule<S>,
    square_avg: S,
    grad_avg: S,
)
    requires
        is_number(rule.scale(square_avg, grad_avg)),
    ensures
        is_number(square_avg),
        rule.centered ==> is_number(square_avg.minus(grad_avg.times(grad_avg))) && is_number(
            grad_avg.times(grad_avg),
        ) && is_number(grad_avg),
{
    let square = grad_avg.times(grad_avg);
    let spread = square_avg.minus(square);
    if rule.centered {
        spread.root().fused_operands(rule.eps, rule.eps);
        spread.fused_operands(spread, spread);
        square_avg.fused_operands(square, square);
        grad_avg.fused_operands(grad_avg, square);
    } else {
        square_avg.root().fused_operands(rule.eps, rule.eps);
        square_avg.fused_operands(square_avg, square_avg);
    }
}

/// An [`RmsProp`] optimizer as a mathematical value.
#[verifier::ext_equal]
pub struct RmsPropModel<S: Single> {
    pub config: RmsPropConfig<S>,
    pub step_count: u64,
    pub slots: Seq<SlotModel<Cell3<S>>>,
}

impl<S: Single> RmsPropModel<S> {
    /// The rule of a slot.
    pub open spec fn rule(config: RmsPropConfig<S>, hparams: SlotHparams<S>) -> RmsPropRule<S> {
        RmsPropRule {
            lr: hparams.lr,
            alpha: config.alpha,
            eps: config.eps,
            weight_decay: hparams.weight_decay,
            momentum: config.momentum,
            centered: config.centered,
        }
    }

    /// One step.
    pub open spec fn stepped(
        self,
        pairs: Seq<Pair<S>>,
        hparams: Seq<SlotHparams<S>>,
    ) -> Result<(Seq<TensorModel<S>>, RmsPropModel<S>), ErrorModel> {
        match step_error("RmsProp", "square_avg/grad_avg/momentum_buffer", self.slots, pairs) {
            Some(e) => Err(e),
            None => match counted(self.step_count) {
                Err(e) => Err(e),
                Ok(step_count) => {
                    let rules = Seq::new(
                        pairs.len(),
                        |i: int| Self::rule(self.config, hparams[i]),
                    );
                    let slots = started(
                        self.slots,
                        pairs,
                        Cell3(zero::<S>(), zero::<S>(), zero::<S>()),
                    );
                    Ok(
                        (
                            moved_params(rules, pairs, slots),
                            RmsPropModel {
                                config: self.config,
                                step_count,
                                slots: next_slots(rules, pairs, slots),
                            },
                        ),
                    )
                },
            },
        }
    }
}

/// The learning rate and the weight decay of a slot are those that are resolved for it,
/// whatever the optimizer was made with; all else is common to the slots.
pub proof fn rmsprop_slots_have_their_own_rates<S: Single>(
    config: RmsPropConfig<S>,
    hparams: SlotHparams<S>,
    lr: S,
    weight_decay: S,
)
    ensures
        ({
            let rule = RmsPropModel::rule(config, hparams);
            &&& rule.lr == hparams.lr
            &&& rule.weight_decay == hparams.weight_decay
            &&& RmsPropModel::rule(RmsPropConfig { lr, weight_decay, ..config }, hparams) == rule
            &&& rule.momentum == config.momentum && rule.alpha == config.alpha && rule.eps
                == config.eps && rule.centered == config.centered
        }),
{
}

/// The first step descends: without weight decay, an element whose gradient is not
/// negative does not grow, and one whose gradient is not positive does not shrink.
pub proof fn first_rmsprop_step_descends<S: Single>(
    config: RmsPropConfig<S>,
    pairs: Seq<Pair<S>>,
    hparams: Seq<SlotHparams<S>>,
    i: int,
    k: int,
)
    requires
        rmsprop_config_error(config) is None,
        0 <= i < pairs.len(),
        0 <= k < pairs[i].param.data.len(),
        non_negative(hparams[i].lr),
        hparams[i].weight_decay.same(zero()),
        (RmsPropModel {
            config,
            step_count: 0,
            slots: Seq::empty(),
        }).stepped(pairs, hparams) matches Ok((params, _)) && is_number(
            params[i].data[k],
        ),
    ensures
        (RmsPropModel {
            config,
            step_count: 0,
            slots: Seq::empty(),
        }).stepped(pairs, hparams) matches Ok((params, _)) && against(
            pairs[i].grad.data[k],
            pairs[i].param.data[k],
            params[i].data[k],
        ),
{
    zero_is_zero::<S>();
    rmsprop_descends(
        RmsPropModel::rule(config, hparams[i]),
        pairs[i].param.data[k],
        pairs[i].grad.data[k],
        Cell3(zero::<S>(), zero::<S>(), zero::<S>()),
    );
}

/// The RMSprop optimizer.
pub struct RmsProp<S: Single> {
    config: RmsPropConfig<S>,
    step_count: u64,
    slots: Vec<Slot<Cell3<S>>>,
}

impl<S: Single> View for RmsProp<S> {
    type V = RmsPropModel<S>;

    closed spec fn view(&self) -> RmsPropModel<S> {
        RmsPropModel {
            config: self.config,
            step_count: self.step_count,
            slots: slot_models(self.slots@),
        }
    }
}

impl<S: Single> RmsProp<S> {
    /// An optimizer that has taken no step.
    pub fn new(config: RmsPropConfig<S>) -> (r: Result<RmsProp<S>, AutodiffError>)
        ensures
            match r {
                Ok(optimizer) => {
                    &&& rmsprop_config_error(config) is None
                    &&& optimizer@ == (RmsPropModel {
                        config,
                        step_count: 0,
                        slots: Seq::empty(),
                    })
                },
                Err(e) => rmsprop_config_error(config) == Some(e@),
            },
    {
        if !is_non_negative(config.lr) {
            return Err(tell("RmsProp::new: lr must be finite and >= 0.0, got ", config.lr));
        }
        if !is_fraction(config.alpha) {
            return Err(tell("RmsProp::new: alpha must be in [0.0, 1.0), got ", config.alpha));
        }
        if !is_positive(config.eps) {
            return Err(tell("RmsProp::new: eps must be finite and > 0.0, got ", config.eps));
        }
        if !is_non_negative(config.weight_decay) {
            return Err(
                tell(
                    "RmsProp::new: weight_decay must be finite and >= 0.0, got ",
                    config.weight_decay,
                ),
            );
        }
        if !is_non_negative(config.momentum) {
            return Err(
                tell("RmsProp::new: momentum must be finite and >= 0.0, got ", config.momentum),
            );
        }
        let r = RmsProp {
            config,
            step_count: 0,
            slots: Vec::new(),
        };
        assert(r@.slots =~= Seq::empty());
        Ok(r)
    }

    pub fn config(&self) -> (r: &RmsPropConfig<S>)
        ensures
            *r == self@.config,
    {
        &self.config
    }

    /// The number of steps taken.
    pub fn step_count(&self) -> (r: u64)
        ensures
            r == self@.step_count,
    {
        self.step_count
    }

    /// Replaces the learning rate and leaves everything else as it is.
    pub fn set_lr(&mut self, new_lr: S) -> (r: Result<(), AutodiffError>)
        ensures
            match r {
                Ok(_) => {
                    &&& non_negative(new_lr)
                    &&& final(self)@ == (RmsPropModel {
                        config: RmsPropConfig { lr: new_lr, ..old(self)@.config },
                        ..old(self)@
                    })
                },
                Err(e) => {
                    &&& !non_negative(new_lr)
                    &&& e@ == told("RmsProp::set_lr: lr must be finite and >= 0.0, got ", new_lr)
                    &&& final(self)@ == old(self)@
                },
            },
    {
        if !is_non_negative(new_lr) {
            return Err(tell("RmsProp::set_lr: lr must be finite and >= 0.0, got ", new_lr));
        }
        self.config.lr = new_lr;
        Ok(())
    }

    /// One step with the configured learning rate and weight decay. Returns the
    /// parameters after the step, in the order in which they were given.
    pub fn step(&mut self, params_and_grads: &[(&Tensor<S>, &Tensor<S>)]) -> (r: Result<
        Vec<Tensor<S>>,
        AutodiffError,
    >)
        ensures
            answers(
                r,
                old(self)@.stepped(
                    inputs(params_and_grads@),
                    Seq::new(
                        params_and_grads@.len(),
                        |i: int|
                            SlotHparams {
                                lr: old(self)@.config.lr,
                                weight_decay: old(self)@.config.weight_decay,
                            },
                    ),
                ),
                old(self)@,
                final(self)@,
            ),
    {
        let hparams: Vec<SlotHparams<S>> = repeated(
            SlotHparams { lr: self.config.lr, weight_decay: self.config.weight_decay },
            params_and_grads.len(),
        );
        self.step_with_slot_hparams(params_and_grads, &hparams)
    }

    /// One step with a learning rate and a weight decay for each slot.
    pub fn step_with_slot_hparams(
        &mut self,
        params_and_grads: &[(&Tensor<S>, &Tensor<S>)],
        hparams: &Vec<SlotHparams<S>>,
    ) -> (r: Result<Vec<Tensor<S>>, AutodiffError>)
        requires
            hparams@.len() == params_and_grads@.len(),
        ensures
            answers(
                r,
                old(self)@.stepped(inputs(params_and_grads@), hparams@),
                old(self)@,
                final(self)@,
            ),
    {
        match check_step("RmsProp", "square_avg/grad_avg/momentum_buffer", &self.slots, params_and_grads) {
            Err(e) => {
                return Err(e);
            },
            Ok(_) => {},
        }
        let step_count: u64 = match count_step(self.step_count) {
            Err(e) => {
                return Err(e);
            },
            Ok(step_count) => step_count,
        };
        let mut rules: Vec<RmsPropRule<S>> = Vec::new();
        let mut i: usize = 0;
        while i < hparams.len()
            invariant
                i <= hparams@.len(),
                rules@.len() == i,
                forall|k: int|
                    0 <= k < i ==> #[trigger] rules@[k] == RmsPropModel::rule(self.config, hparams@[k]),
            decreases hparams@.len() - i,
        {
            rules.push(
                RmsPropRule {
                    lr: hparams[i].lr,
                    alpha: self.config.alpha,
                    eps: self.config.eps,
                    weight_decay: hparams[i].weight_decay,
                    momentum: self.config.momentum,
                    centered: self.config.centered,
                },
            );
            i = i + 1;
        }
        let blank = Cell3(S::literal(0, 0), S::literal(0, 0), S::literal(0, 0));
        proof {
            accepted_step_is_aligned(
                "RmsProp",
                "square_avg/grad_avg/momentum_buffer",
                slot_models(self.slots@),
                inputs(params_and_grads@),
                blank,
            );
            assert(rules@ =~= Seq::new(
                inputs(params_and_grads@).len(),
                |k: int| RmsPropModel::rule(self.config, hparams@[k]),
            ));
        }
        let slots: Vec<Slot<Cell3<S>>> = start(&self.slots, params_and_grads, blank);
        let (params, next) = advance(&rules, params_and_grads, &slots);
        self.step_count = step_count;
        self.slots = next;
        Ok(params)
    }
}

impl<S: Single> SlotwiseStep<S> for RmsProp<S> {
    open spec fn name() -> Seq<char> {
        "RmsProp"@
    }

    open spec fn default_hparams(state: RmsPropModel<S>) -> SlotHparams<S> {
        SlotHparams { lr: state.config.lr, weight_decay: state.config.weight_decay }
    }

    open spec fn stepped(
        state: RmsPropModel<S>,
        pairs: Seq<Pair<S>>,
        hparams: Seq<SlotHparams<S>>,
    ) -> Result<(Seq<TensorModel<S>>, RmsPropModel<S>), ErrorModel> {
        state.stepped(pairs, hparams)
    }
}

impl<S: Single> ParamGroupStep<S> for RmsProp<S> {
    fn step_with_groups(
        &mut self,
        params: &[&Tensor<S>],
        grads: &[&Tensor<S>],
        groups: &[ParamGroup<S>],
    ) -> (r: Result<Vec<Tensor<S>>, AutodiffError>) {
        match check_len_matches("RmsProp", params, grads) {
            Err(e) => {
                return Err(e);
            },
            Ok(_) => {},
        }
        let hparams: Vec<SlotHparams<S>> = match resolve_slot_hparams(
            groups,
            params.len(),
            self.config.lr,
            self.config.weight_decay,
            "RmsProp",
        ) {
            Err(e) => {
                return Err(e);
            },
            Ok(hparams) => hparams,
        };
        let pairs: Vec<(&Tensor<S>, &Tensor<S>)> = zip_params_grads(params, grads);
        self.step_with_slot_hparams(pairs.as_slice(), &hparams)
    }
}

impl<S: Single> OptimizerStateDict<S> for RmsProp<S> {
    open spec fn layout() -> Layout {
        Layout {
            kind: "rmsprop"@,
            buffers: seq!["square_avg"@, "grad_avg"@, "momentum_buffer"@],
            has_beta1: false,
            has_beta2: false,
            has_mu_product: false,
        }
    }

    open spec fn accumulated(&self) -> StateModel<S> {
        StateModel {
            step_count: self@.step_count,
            beta1_pow_t: None,
            beta2_pow_t: None,
            mu_product: None,
            slots: slots_data(self@.slots),
        }
    }

    open spec fn same_settings(&self, other: &Self) -> bool {
        self@.config == other@.config
    }

    fn state_dict(&self) -> (r: Result<StateDict<S>, AutodiffError>) {
        let names: [&str; 3] = ["square_avg", "grad_avg", "momentum_buffer"];
        proof {
            reveal_strlit("square_avg");
            reveal_strlit("grad_avg");
            reveal_strlit("momentum_buffer");
            assert("square_avg"@.len() != "grad_avg"@.len());
            assert("square_avg"@.len() != "momentum_buffer"@.len());
            assert("grad_avg"@.len() != "momentum_buffer"@.len());
            assert(names@.map_values(|name: &str| name@) =~= Self::layout().buffers);
        }
        let state = DecodedState {
            step_count: self.step_count,
            beta1_pow_t: None,
            beta2_pow_t: None,
            mu_product: None,
            slots: export_slots(&self.slots),
        };
        assert(state@ =~= self.accumulated());
        Ok(encode_state_dict("rmsprop", &names, &state))
    }

    fn load_state_dict(&mut self, state: StateDict<S>) -> (r: Result<(), AutodiffError>) {
        let names: [&str; 3] = ["square_avg", "grad_avg", "momentum_buffer"];
        assert(names@.map_values(|name: &str| name@) =~= Self::layout().buffers);
        match decode_state_dict("rmsprop", &state, &names, false, false, false) {
            Err(e) => Err(e),
            Ok(decoded) => {
                proof {
                    decoded_slots_fit(state@, Self::layout(), decoded);
                }
                self.step_count = decoded.step_count;
                self.slots = import_slots(&decoded.slots);
                assert(self.accumulated() =~= decoded@);
                Ok(())
            },
        }
    }
}

/// An optimizer that takes over a saved state is in all respects like the one that
/// saved it, if both have the same settings. The state is accepted unless the
/// counter of steps is at its end, where no further step could be counted.
pub proof fn rmsprop_resumes_from_its_saved_state<S: Single>(
    saved: RmsProp<S>,
    dict: StateDict<S>,
    resumed: RmsProp<S>,
)
    requires
        saves(dict@, RmsProp::<S>::layout(), saved.accumulated()),
        saved@.step_count <= largest_step_count(false),
        resumed.same_settings(&saved),
    ensures
        restored(dict@, RmsProp::<S>::layout()) == Ok::<_, ErrorModel>(saved.accumulated()),
        restored(dict@, RmsProp::<S>::layout()) == Ok::<_, ErrorModel>(resumed.accumulated())
            ==> resumed@ == saved@,
{
    reveal_strlit("square_avg");
    reveal_strlit("grad_avg");
    reveal_strlit("momentum_buffer");
    assert("square_avg"@.len() != "grad_avg"@.len());
    assert("square_avg"@.len() != "momentum_buffer"@.len());
    assert("grad_avg"@.len() != "momentum_buffer"@.len());
    dict.entries_are_countable();
    saved_state_is_restored(dict@, RmsProp::<S>::layout(), saved.accumulated());
    if resumed.accumulated() == saved.accumulated() {
        buffers_determine_slots::<S, _>(resumed@.slots, saved@.slots);
    }
}

} // verus!
