//! RAdam: Adam whose adaptive rate is rectified while its variance is large.
use crate::dict::StateDict;
use crate::error::{AutodiffError, ErrorModel, tell, told};
use crate::number::{
    Double, Real, Single, fraction, in_unit_range, is_fraction, is_non_negative, is_number,
    is_positive, non_negative, one, positive, unit_range_is_closed, widened_fraction_in_unit_range,
    zero,
};
use crate::optim::param_group::answers;
use crate::optim::slots::{
    Cell2, Pair, Rule, Slot, SlotModel, accepted_step_is_aligned, advance, blend, blended,
    buffers_determine_slots, check_step, count_step, counted, decay_gradient, decayed, export_slots,
    import_slots, inputs, moved_params, next_slots, repeated, slot_models, slots_data, start,
    started, step_error,
};
use crate::optim::state_dict::{
    DecodedState, Layout, OptimizerStateDict, StateModel, decode_state_dict, decoded_slots_fit,
    encode_state_dict, largest_step_count, restored, saved_state_is_restored, saves,
};
use crate::tensor::{Tensor, TensorModel};
use crate::fixed::{Fixed, UNITS, ten_to};
use crate::optim::direction::{
    against, average_of_ones, average_of_squares, averages_are_ordered, blend_between_its_ends,
    blend_of_equals, decay_follows_the_parameter, difference_leads_against, fading_average,
    nothing_added, nothing_taken, plain_corrections, positive_sum, root_corrections,
    roots_and_sums_are_ordered, shrunk_number, sided, sided_blend, sided_product, sided_quotient,
    squares_between_their_ends, widened_below_one, zero_is_zero,
};
use vstd::prelude::*;

verus! {

/// Hyperparameters of [`RAdam`].
#[derive(Debug, Clone, Copy, PartialEq)]
pub struct RAdamConfig<S> {
    pub lr: S,
    pub beta1: S,
    pub beta2: S,
    pub eps: S,
    pub weight_decay: S,
    /// Whether the decay shrinks the parameter instead of changing the gradient.
    pub decoupled_weight_decay: bool,
}

impl<S: Single> Default for RAdamConfig<S> {
    fn default() -> (r: Self)
        ensures
            r == (RAdamConfig {
                lr: S::decimal(1, -3),
                beta1: S::decimal(9, -1),
                beta2: S::decimal(999, -3),
                eps: S::decimal(1, -8),
                weight_decay: S::decimal(0, 0),
                decoupled_weight_decay: false,
            }),
    {
        RAdamConfig {
            lr: S::literal(1, -3),
            beta1: S::literal(9, -1),
            beta2: S::literal(999, -3),
            eps: S::literal(1, -8),
            weight_decay: S::literal(0, 0),
            decoupled_weight_decay: false,
        }
    }
}

/// Why hyperparameters are refused, if they are.
pub open spec fn radam_config_error<S: Single>(config: RAdamConfig<S>) -> Option<ErrorModel> {
    if !non_negative(config.lr) {
        Some(told("RAdam::new: lr must be finite and >= 0.0, got ", config.lr))
    } else if !fraction(config.beta1) {
        Some(told("RAdam::new: beta1 must be in [0.0, 1.0), got ", config.beta1))
    } else if !fraction(config.beta2) {
        Some(told("RAdam::new: beta2 must be in [0.0, 1.0), got ", config.beta2))
    } else if !positive(config.eps) {
        Some(told("RAdam::new: eps must be finite and > 0.0, got ", config.eps))
    } else if !non_negative(config.weight_decay) {
        Some(told("RAdam::new: weight_decay must be finite and >= 0.0, got ", config.weight_decay))
    } else {
        None
    }
}

/// What the elements of one slot go through in one step.
#[derive(Clone, Copy)]
pub struct RAdamRule<S> {
    pub lr: S,
    pub beta1: S,
    pub beta2: S,
    pub eps: S,
    pub weight_decay: S,
    pub decoupled: bool,
    pub bc1: S,
    pub bc2_sqrt: S,
    pub rect: Option<S>,
}

impl<S: Single> RAdamRule<S> {
    /// The element that the step starts from.
    pub open spec fn start(self, param: S) -> S {
        if self.decoupled && !self.weight_decay.same(zero()) {
            param.times(one::<S>().minus(self.lr.times(self.weight_decay)))
        } else {
            param
        }
    }

    /// The gradient that the step uses.
    pub open spec fn gradient(self, param: S, grad: S) -> S {
        if self.decoupled {
            grad
        } else {
            decayed(self.weight_decay, param, grad)
        }
    }
}

impl<S: Single> Rule<S, Cell2<S>> for RAdamRule<S> {
    open spec fn moved(self, param: S, grad: S, cell: Cell2<S>) -> S {
        let Cell2(exp_avg, exp_avg_sq) = self.next(param, grad, cell);
        let corrected = exp_avg.over(self.bc1);
        self.start(param).minus(
            match self.rect {
                Some(rect) => corrected.times(self.lr).times(
                    self.bc2_sqrt.over(exp_avg_sq.root().plus(self.eps)),
                ).times(rect),
                None => corrected.times(self.lr),
            },
        )
    }

    open spec fn next(self, param: S, grad: S, cell: Cell2<S>) -> Cell2<S> {
        let g = self.gradient(param, grad);
        Cell2(
            blended(cell.0, g, one::<S>().minus(self.beta1), self.beta1),
            self.beta2.fused(cell.1, one::<S>().minus(self.beta2).times(g).times(g)),
        )
    }

    fn apply(&self, param: S, grad: S, cell: Cell2<S>) -> (r: (S, Cell2<S>)) {
        let unit: S = S::literal(1, 0);
        let (p, g): (S, S) = if self.decoupled {
            if self.weight_decay.eq(S::literal(0, 0)) {
                (param, grad)
            } else {
                (param.mul(unit.sub(self.lr.mul(self.weight_decay))), grad)
            }
        } else {
            (param, decay_gradient(self.weight_decay, param, grad))
        };
        let exp_avg: S = blend(cell.0, g, unit.sub(self.beta1), self.beta1);
        let exp_avg_sq: S = self.beta2.mul_add(cell.1, unit.sub(self.beta2).mul(g).mul(g));
        let corrected: S = exp_avg.div(self.bc1);
        let change: S = match self.rect {
            Some(rect) => corrected.mul(self.lr).mul(
                self.bc2_sqrt.div(exp_avg_sq.sqrt().add(self.eps)),
            ).mul(rect),
            None => corrected.mul(self.lr),
        };
        (p.sub(change), Cell2(exp_avg, exp_avg_sq))
    }
}

/// An [`RAdam`] optimizer as a mathematical value.
#[verifier::ext_equal]
pub struct RAdamModel<S: Single> {
    pub config: RAdamConfig<S>,
    pub step_count: u64,
    pub beta1_pow_t: S::Wide,
    pub beta2_pow_t: S::Wide,
    pub slots: Seq<SlotModel<Cell2<S>>>,
}

impl<S: Single> RAdamModel<S> {
    /// The length of the moving average that the second decay rate comes to in the
    /// long run.
    pub open spec fn rho_inf(config: RAdamConfig<S>) -> S::Wide {
        let two = <S::Wide as Real>::decimal(2, 0);
        two.over(one::<S::Wide>().minus(config.beta2.widened())).minus(one())
    }

    /// The length of the moving average in step number `step`.
    pub open spec fn rho_t(config: RAdamConfig<S>, step: u64, beta2_pow_t: S::Wide) -> S::Wide {
        let two = <S::Wide as Real>::decimal(2, 0);
        let time = <S::Wide as Double>::of_integer(step as u128);
        Self::rho_inf(config).minus(
            two.times(time).times(config.beta2.widened().raised(time)).over(
                one::<S::Wide>().minus(beta2_pow_t),
            ),
        )
    }

    /// The factor that rectifies the variance, where the moving average is long
    /// enough for one.
    pub open spec fn rectification(rho_inf: S::Wide, rho_t: S::Wide) -> Option<S> {
        let two = <S::Wide as Real>::decimal(2, 0);
        let four = <S::Wide as Real>::decimal(4, 0);
        if <S::Wide as Real>::decimal(5, 0).less(rho_t) {
            Some(
                S::rounded(
                    rho_t.minus(four).times(rho_t.minus(two)).times(rho_inf).over(
                        rho_inf.minus(four).times(rho_inf.minus(two)).times(rho_t),
                    ).root(),
                ),
            )
        } else {
            None
        }
    }

    /// The rule of every slot in step number `step`, after which the decay rates
    /// have been multiplied up to the given powers.
    pub open spec fn rule(
        config: RAdamConfig<S>,
        step: u64,
        beta1_pow_t: S::Wide,
        beta2_pow_t: S::Wide,
    ) -> RAdamRule<S> {
        RAdamRule {
            lr: config.lr,
            beta1: config.beta1,
            beta2: config.beta2,
            eps: config.eps,
            weight_decay: config.weight_decay,
            decoupled: config.decoupled_weight_decay,
            bc1: S::rounded(one::<S::Wide>().minus(beta1_pow_t)),
            bc2_sqrt: S::rounded(one::<S::Wide>().minus(beta2_pow_t).root()),
            rect: Self::rectification(
                Self::rho_inf(config),
                Self::rho_t(config, step, beta2_pow_t),
            ),
        }
    }

    /// One step.
    pub open spec fn stepped(
        self,
        pairs: Seq<Pair<S>>,
    ) -> Result<(Seq<TensorModel<S>>, RAdamModel<S>), ErrorModel> {
        match step_error("RAdam", "exp_avg/exp_avg_sq", self.slots, pairs) {
            Some(e) => Err(e),
            None => match counted(self.step_count) {
                Err(e) => Err(e),
                Ok(step_count) => {
                    let beta1_pow_t = self.beta1_pow_t.times(self.config.beta1.widened());
                    let beta2_pow_t = self.beta2_pow_t.times(self.config.beta2.widened());
                    let rules = Seq::new(
                        pairs.len(),
                        |i: int| Self::rule(self.config, step_count, beta1_pow_t, beta2_pow_t),
                    );
                    let slots = started(self.slots, pairs, Cell2(zero::<S>(), zero::<S>()));
                    Ok(
                        (
                            moved_params(rules, pairs, slots),
                            RAdamModel {
                                config: self.config,
                                step_count,
                                beta1_pow_t,
                                beta2_pow_t,
                                slots: next_slots(rules, pairs, slots),
                            },
                        ),
                    )
                },
            },
        }
    }
}

/// A step leads against the gradient that it uses, where the mean of the gradients
/// points the same way.
pub proof fn radam_descends<S: Single>(rule: RAdamRule<S>, param: S, grad: S, cell: Cell2<S>)
    requires
        in_unit_range(rule.beta1),
        zero::<S>().at_most(rule.lr),
        zero::<S>().less(rule.bc1),
        zero::<S>().at_most(rule.bc2_sqrt),
        zero::<S>().less(rule.eps),
        rule.rect matches Some(rect) ==> zero::<S>().at_most(rect),
        cell.0.finite(),
        rule.gradient(param, grad).finite(),
        sided(rule.gradient(param, grad), cell.0),
        is_number(rule.moved(param, grad, cell)),
    ensures
        against(rule.gradient(param, grad), rule.start(param), rule.moved(param, grad, cell)),
        sided(rule.gradient(param, grad), rule.next(param, grad, cell).0),
{
    let g = rule.gradient(param, grad);
    let start = rule.start(param);
    let next = rule.next(param, grad, cell);
    let corrected = next.0.over(rule.bc1);
    let plain = corrected.times(rule.lr);
    let denom = next.1.root().plus(rule.eps);
    let scale = rule.bc2_sqrt.over(denom);
    let scaled = plain.times(scale);
    match rule.rect {
        Some(rect) => {
            start.fused_operands(scaled.times(rect), g);
            scaled.fused_operands(rect, g);
            plain.fused_operands(scale, g);
            rule.bc2_sqrt.fused_operands(denom, g);
            next.1.root().fused_operands(rule.eps, g);
            next.1.fused_operands(g, g);
            positive_sum(next.1.root(), rule.eps);
            rule.bc2_sqrt.signs(denom);
        },
        None => {
            start.fused_operands(plain, g);
        },
    }
    corrected.fused_operands(rule.lr, g);
    next.0.fused_operands(rule.bc1, g);
    sided_blend(g, cell.0, g, rule.beta1);
    sided_quotient(g, next.0, rule.bc1);
    corrected.neutral(rule.lr);
    sided_product(g, corrected, rule.lr);
    match rule.rect {
        Some(rect) => {
            plain.neutral(scale);
            sided_product(g, plain, scale);
            scaled.neutral(rect);
            sided_product(g, scaled, rect);
            difference_leads_against(g, start, scaled.times(rect));
        },
        None => {
            difference_leads_against(g, start, plain);
        },
    }
}

/// A larger factor and a smaller mean of squares make a rectified step longer, and a
/// step without a factor does not depend on the mean of squares at all.
pub proof fn radam_step_lengths<S: Single>(
    rule: RAdamRule<S>,
    param: S,
    grad: S,
    cell: Cell2<S>,
    other: S,
)
    requires
        in_unit_range(rule.beta1),
        in_unit_range(rule.beta2),
        zero::<S>().at_most(rule.lr),
        zero::<S>().less(rule.bc1),
        zero::<S>().at_most(rule.bc2_sqrt),
        zero::<S>().less(rule.eps),
        rule.rect matches Some(rect) ==> zero::<S>().at_most(rect),
        cell.0.finite(),
        rule.gradient(param, grad).finite(),
        sided(rule.gradient(param, grad), cell.0),
        is_number(rule.moved(param, grad, cell)),
    ensures
        ({
            let g = rule.gradient(param, grad);
            let moved = rule.moved(param, grad, cell);
            let rectified = RAdamRule { rect: Some(other), ..rule };
            let wider = RAdamRule { eps: other, ..rule };
            let higher = Cell2(cell.0, other);
            &&& rule.rect is None ==> rule.moved(param, grad, higher) == moved
            &&& rule.rect matches Some(rect) ==> {
                &&& rect.at_most(other) && is_number(rectified.moved(param, grad, cell))
                    ==> against(g, moved, rectified.moved(param, grad, cell))
                &&& cell.1.at_most(other) && zero::<S>().at_most(cell.1) && is_number(
                    rule.moved(param, grad, higher),
                ) ==> against(g, rule.moved(param, grad, higher), moved)
                &&& rule.eps.at_most(other) && is_number(wider.moved(param, grad, cell))
                    ==> against(g, wider.moved(param, grad, cell), moved)
            }
        }),
{
    let g = rule.gradient(param, grad);
    let start = rule.start(param);
    let next = rule.next(param, grad, cell);
    let corrected = next.0.over(rule.bc1);
    let plain = corrected.times(rule.lr);
    let denom = next.1.root().plus(rule.eps);
    let scale = rule.bc2_sqrt.over(denom);
    let scaled = plain.times(scale);
    radam_descends(rule, param, grad, cell);
    match rule.rect {
        Some(rect) => {
            let change = scaled.times(rect);
            start.fused_operands(change, g);
            scaled.fused_operands(rect, g);
            plain.fused_operands(scale, g);
            corrected.fused_operands(rule.lr, g);
            next.0.fused_operands(rule.bc1, g);
            rule.bc2_sqrt.fused_operands(denom, g);
            next.1.root().fused_operands(rule.eps, g);
            next.1.fused_operands(g, g);
            positive_sum(next.1.root(), rule.eps);
            rule.bc2_sqrt.signs(denom);
            corrected.neutral(rule.lr);
            plain.neutral(scale);
            sided_quotient(g, next.0, rule.bc1);
            sided_product(g, corrected, rule.lr);
            sided_product(g, plain, scale);
            zero::<S>().order(rule.eps, rule.eps);
            if rect.at_most(other) {
                let further = scaled.times(other);
                if is_number(start.minus(further)) {
                    start.fused_operands(further, g);
                    rect.order(other, scaled);
                    scaled.neutral(rect);
                    scaled.neutral(other);
                    change.order(further, start);
                    further.order(change, start);
                }
            }
            if cell.1.at_most(other) && zero::<S>().at_most(cell.1) {
                let higher = rule.next(param, grad, Cell2(cell.0, other));
                let wide = higher.1.root().plus(rule.eps);
                let less = plain.times(rule.bc2_sqrt.over(wide)).times(rect);
                if is_number(start.minus(less)) {
                    start.fused_operands(less, g);
                    plain.times(rule.bc2_sqrt.over(wide)).fused_operands(rect, g);
                    plain.fused_operands(rule.bc2_sqrt.over(wide), g);
                    rule.bc2_sqrt.fused_operands(wide, g);
                    higher.1.root().fused_operands(rule.eps, g);
                    higher.1.fused_operands(g, g);
                    averages_are_ordered(
                        rule.beta2,
                        cell.1,
                        other,
                        one::<S>().minus(rule.beta2).times(g).times(g),
                    );
                    roots_and_sums_are_ordered(next.1, higher.1, rule.eps, rule.eps);
                    shorter_scaled_way(g, start, plain, rule.bc2_sqrt, rect, denom, wide);
                }
            }
            if rule.eps.at_most(other) {
                let wide = next.1.root().plus(other);
                let less = plain.times(rule.bc2_sqrt.over(wide)).times(rect);
                if is_number(start.minus(less)) {
                    start.fused_operands(less, g);
                    plain.times(rule.bc2_sqrt.over(wide)).fused_operands(rect, g);
                    plain.fused_operands(rule.bc2_sqrt.over(wide), g);
                    rule.bc2_sqrt.fused_operands(wide, g);
                    next.1.order(next.1, next.1);
                    roots_and_sums_are_ordered(next.1, next.1, rule.eps, other);
                    shorter_scaled_way(g, start, plain, rule.bc2_sqrt, rect, denom, wide);
                }
            }
        },
        None => {},
    }
}

proof fn shorter_scaled_way<S: Real>(g: S, start: S, plain: S, c: S, rect: S, d: S, e: S)
    requires
        sided(g, plain),
        zero::<S>().at_most(c),
        zero::<S>().at_most(rect),
        zero::<S>().less(d),
        d.at_most(e),
        is_number(start.minus(plain.times(c.over(d)).times(rect))),
        is_number(start.minus(plain.times(c.over(e)).times(rect))),
    ensures
        against(
            g,
            start.minus(plain.times(c.over(e)).times(rect)),
            start.minus(plain.times(c.over(d)).times(rect)),
        ),
{
    let (p, q) = (c.over(d), c.over(e));
    let (x, y) = (plain.times(p), plain.times(q));
    start.fused_operands(x.times(rect), x);
    start.fused_operands(y.times(rect), x);
    x.fused_operands(rect, x);
    y.fused_operands(rect, x);
    plain.fused_operands(p, x);
    plain.fused_operands(q, x);
    d.order(e, c);
    q.order(p, plain);
    plain.neutral(p);
    plain.neutral(q);
    x.order(y, rect);
    y.order(x, rect);
    x.times(rect).order(y.times(rect), start);
    y.times(rect).order(x.times(rect), start);
}

/// Without a correction of the mean, an element goes back by the mean of the gradients
/// times the learning rate where there is no factor. With a factor, that is multiplied by
/// the correction of the mean of squares over the root of that mean and epsilon, which is
/// two and epsilon where the mean is four, and by the factor.
pub proof fn radam_unit_steps<S: Single>(rule: RAdamRule<S>, param: S, grad: S, cell: Cell2<S>)
    requires
        rule.bc1 == one::<S>(),
        rule.weight_decay.same(zero()),
    ensures
        ({
            let next = rule.next(param, grad, cell);
            let moved = rule.moved(param, grad, cell);
            let plain = next.0.times(rule.lr);
            &&& rule.rect is None ==> moved == param.minus(plain)
            &&& rule.rect matches Some(rect) ==> {
                &&& next.1 == S::decimal(4, 0) ==> moved == param.minus(
                    plain.times(rule.bc2_sqrt.over(S::decimal(2, 0).plus(rule.eps))).times(rect),
                )
                &&& next.1 == S::decimal(4, 0) && rect == one::<S>() && rule.lr == one::<S>()
                    ==> moved == param.minus(
                    next.0.times(rule.bc2_sqrt.over(S::decimal(2, 0).plus(rule.eps))),
                )
            }
        }),
{
    let next = rule.next(param, grad, cell);
    let scale = rule.bc2_sqrt.over(next.1.root().plus(rule.eps));
    next.0.neutral(one());
    next.0.times(scale).neutral(one());
}

/// Decoupled decay leaves the gradient alone and draws the element towards zero, and
/// decay that is not decoupled leaves the element alone and goes into the gradient.
pub proof fn radam_decay<S: Single>(rule: RAdamRule<S>, param: S, grad: S)
    requires
        in_unit_range(rule.lr.times(rule.weight_decay)),
        is_number(rule.start(param)),
    ensures
        rule.decoupled ==> {
            &&& rule.gradient(param, grad) == grad
            &&& sided(param, rule.start(param))
            &&& against(param, param, rule.start(param))
        },
        !rule.decoupled ==> {
            &&& rule.start(param) == param
            &&& zero::<S>().at_most(rule.weight_decay) && is_number(rule.gradient(param, grad))
                ==> against(param, rule.gradient(param, grad), grad)
        },
        rule.weight_decay.same(zero()) ==> rule.start(param) == param && rule.gradient(param, grad)
            == grad,
        rule.decoupled && rule.weight_decay == one::<S>() ==> rule.start(param) == param.times(
            one::<S>().minus(rule.lr),
        ),
        !rule.decoupled && rule.weight_decay == one::<S>() ==> rule.gradient(param, grad)
            == param.plus(grad),
{
    S::decimals(0, 1, 0);
    zero::<S>().order(one(), one());
    one::<S>().order(zero(), zero());
    rule.lr.neutral(one());
    grad.neutral(param);
    if rule.decoupled && !rule.weight_decay.same(zero()) {
        shrunk_number(param, rule.lr.times(rule.weight_decay));
    }
    if !rule.decoupled && zero::<S>().at_most(rule.weight_decay) && is_number(
        rule.gradient(param, grad),
    ) {
        decay_follows_the_parameter(rule.weight_decay, param, grad);
    }
}

/// The mean of the squares is not negative, is what it was where nothing is forgotten,
/// is the squared gradient where everything is, stays one under gradients of one, and
/// keeps the order of the means before the step. The mean of the gradients is bound in
/// the same way.
pub proof fn radam_means<S: Single>(
    rule: RAdamRule<S>,
    param: S,
    grad: S,
    cell: Cell2<S>,
    higher: Cell2<S>,
)
    requires
        in_unit_range(rule.beta1),
        in_unit_range(rule.beta2),
        rule.gradient(param, grad).finite(),
        rule.gradient(param, grad).times(rule.gradient(param, grad)).finite(),
        cell.0.finite(),
        cell.1.finite(),
        rule.gradient(param, grad).minus(cell.0).finite(),
    ensures
        ({
            let g = rule.gradient(param, grad);
            let next = rule.next(param, grad, cell);
            let other = rule.next(param, grad, higher);
            &&& zero::<S>().at_most(cell.1) && is_number(next.1) ==> zero::<S>().at_most(next.1)
            &&& rule.beta2 == zero::<S>() ==> next.1.same(g.times(g))
            &&& rule.beta2 == one::<S>() ==> next.1.same(cell.1)
            &&& cell.1 == one::<S>() && g == one::<S>() ==> next.1 == one::<S>()
            &&& cell.1 == one::<S>() && g == zero::<S>() ==> next.1.same(rule.beta2)
            &&& cell.1.at_most(higher.1) && is_number(next.1) && is_number(other.1)
                ==> next.1.at_most(other.1)
            &&& rule.beta1 == zero::<S>() ==> next.0.same(g)
            &&& rule.beta1 == one::<S>() ==> next.0.same(cell.0)
            &&& cell.0 == g ==> next.0.same(g)
        }),
{
    let g = rule.gradient(param, grad);
    let next = rule.next(param, grad, cell);
    let rest = one::<S>().minus(rule.beta2);
    if zero::<S>().at_most(cell.1) && is_number(next.1) {
        average_of_squares(rule.beta2, cell.1, g);
    }
    squares_between_their_ends(cell.1, g);
    average_of_ones(rule.beta2);
    fading_average(rule.beta2);
    if cell.1.at_most(higher.1) {
        averages_are_ordered(rule.beta2, cell.1, higher.1, rest.times(g).times(g));
    }
    blend_between_its_ends(cell.0, g);
    rule.beta1.unit_interval(rule.beta1);
    blend_of_equals(g, one::<S>().minus(rule.beta1), rule.beta1);
}

/// There is a factor exactly where the moving average is longer than five. It is not
/// negative, and it is one where the moving average has its length in the long run, as
/// far as the product of lengths that it is computed from is not beyond all numbers. It
/// is at most one where that product is larger for the long run.
pub proof fn rectification_of_long_averages<S: Single>(rho_inf: S::Wide, rho_t: S::Wide)
    ensures
        ({
            let five = <S::Wide as Real>::decimal(5, 0);
            let two = <S::Wide as Real>::decimal(2, 0);
            let four = <S::Wide as Real>::decimal(4, 0);
            let factor = RAdamModel::<S>::rectification(rho_inf, rho_t);
            let product = rho_t.minus(four).times(rho_t.minus(two)).times(rho_t);
            &&& factor is Some <==> five.less(rho_t)
            &&& factor matches Some(r) ==> {
                &&& is_number(r) ==> zero::<S>().at_most(r)
                &&& rho_t == rho_inf && product.over(two).less(product) ==> r == one::<S>()
                &&& ({
                    let top = rho_t.minus(four).times(rho_t.minus(two)).times(rho_inf);
                    let bottom = rho_inf.minus(four).times(rho_inf.minus(two)).times(rho_t);
                    zero::<S::Wide>().at_most(top) && top.less(bottom) && is_number(r)
                }) ==> r.at_most(one())
            }
        }),
{
    let two = <S::Wide as Real>::decimal(2, 0);
    let four = <S::Wide as Real>::decimal(4, 0);
    let product = rho_t.minus(four).times(rho_t.minus(two)).times(rho_t);
    let top = rho_t.minus(four).times(rho_t.minus(two)).times(rho_inf);
    let bottom = rho_inf.minus(four).times(rho_inf.minus(two)).times(rho_t);
    let ratio = top.over(bottom);
    zero::<S>().precisions(ratio.root());
    one::<S>().precisions(ratio.root());
    top.signs(bottom);
    ratio.order(one(), one());
    ratio.fused_operands(ratio, ratio);
    product.neutral(product);
    one::<S::Wide>().neutral(one());
    one::<S>().precisions(one());
    zero_is_zero::<S>();
}

/// The moving average is never longer than in the long run.
pub proof fn averages_are_shorter_than_in_the_long_run<S: Single>(
    config: RAdamConfig<S>,
    step: u64,
    beta2_pow_t: S::Wide,
)
    requires
        fraction(config.beta2),
        beta2_pow_t.finite(),
        beta2_pow_t.less(one()),
        is_number(RAdamModel::rho_t(config, step, beta2_pow_t)),
    ensures
        RAdamModel::rho_t(config, step, beta2_pow_t).at_most(RAdamModel::rho_inf(config)),
{
    let two = <S::Wide as Real>::decimal(2, 0);
    let time = <S::Wide as Double>::of_integer(step as u128);
    let power = config.beta2.widened().raised(time);
    let rest = one::<S::Wide>().minus(beta2_pow_t);
    let part = two.times(time).times(power);
    let rho_inf = RAdamModel::<S>::rho_inf(config);
    rho_inf.fused_operands(part.over(rest), part);
    part.fused_operands(rest, rest);
    two.times(time).fused_operands(power, power);
    two.fused_operands(time, time);
    <S::Wide as Double>::integers(step as u128);
    <S::Wide as Real>::decimals(0, 2, 0);
    widened_below_one(config.beta2);
    config.beta2.widened().powers(time);
    two.signs(time);
    two.times(time).signs(power);
    zero_is_zero::<S::Wide>();
    one::<S::Wide>().signs(beta2_pow_t);
    part.signs(rest);
    rho_inf.signs(part.over(rest));
}

/// A decay rate nearer to one makes a moving average that is longer in the long run.
pub proof fn slower_decay_averages_longer<S: Single>(config: RAdamConfig<S>, slower: RAdamConfig<S>)
    requires
        fraction(config.beta2),
        fraction(slower.beta2),
        config.beta2.at_most(slower.beta2),
        is_number(RAdamModel::rho_inf(config)),
        is_number(RAdamModel::rho_inf(slower)),
    ensures
        RAdamModel::rho_inf(config).at_most(RAdamModel::rho_inf(slower)),
{
    let two = <S::Wide as Real>::decimal(2, 0);
    let unit = one::<S::Wide>();
    let (a, b) = (config.beta2.widened(), slower.beta2.widened());
    let (c, d) = (unit.minus(a), unit.minus(b));
    config.beta2.precisions(a);
    widened_below_one(config.beta2);
    widened_below_one(slower.beta2);
    zero::<S::Wide>().order(c, c);
    zero::<S::Wide>().order(d, d);
    a.order(b, unit);
    two.over(c).fused_operands(unit, unit);
    two.over(d).fused_operands(unit, unit);
    <S::Wide as Real>::decimals(0, 2, 0);
    d.order(c, two);
    two.over(c).order(two.over(d), unit);
}

/// The product of a length in units less four and less two, in units.
spec fn shortened(x: int, u: int) -> int {
    ((x - 4 * u) * (x - 2 * u)) / u
}

/// A shortened length times another length, in units.
spec fn weighed(x: int, n: int, u: int) -> int {
    shortened(x, u) * n / u
}

proof fn shortened_lengths(x: int, n: int, u: int)
    requires
        u >= 1,
        5 * u < x,
        5 * u < n,
    ensures
        ({
            let f = (x - 4 * u) * (x - 2 * u);
            let a = shortened(x, u);
            let w = weighed(x, n, u);
            &&& 3 * u * u <= f <= x * x
            &&& 3 * u <= a
            &&& a * u <= f < a * u + u
            &&& w * u <= a * n < w * u + u
            &&& 1 <= w
            &&& w * u * u <= f * n
            &&& f * n - u * n - u * u < w * u * u
        }),
{
    let f = (x - 4 * u) * (x - 2 * u);
    let a = shortened(x, u);
    let w = weighed(x, n, u);
    assert(3 * u * u <= f) by (nonlinear_arith)
        requires
            f == (x - 4 * u) * (x - 2 * u),
            5 * u < x,
            u >= 1,
    ;
    assert(f <= x * x) by (nonlinear_arith)
        requires
            f == (x - 4 * u) * (x - 2 * u),
            5 * u < x,
            u >= 1,
    ;
    vstd::arithmetic::div_mod::lemma_fundamental_div_mod(f, u);
    vstd::arithmetic::div_mod::lemma_fundamental_div_mod(a * n, u);
    vstd::arithmetic::div_mod::lemma_mod_bound(f, u);
    vstd::arithmetic::div_mod::lemma_mod_bound(a * n, u);
    assert(u * a == a * u) by (nonlinear_arith);
    assert(u * w == w * u) by (nonlinear_arith);
    assert(3 * u <= a) by (nonlinear_arith)
        requires
            3 * u * u <= f,
            f < a * u + u,
            u >= 1,
    ;
    assert(1 <= w) by (nonlinear_arith)
        requires
            a * n < w * u + u,
            3 * u <= a,
            5 * u < n,
            u >= 1,
    ;
    assert(w * u * u <= f * n) by (nonlinear_arith)
        requires
            w * u <= a * n,
            a * u <= f,
            u >= 1,
            n >= 1,
    ;
    assert(f * n - u * n - u * u < w * u * u) by (nonlinear_arith)
        requires
            a * n < w * u + u,
            f < a * u + u,
            u >= 1,
            n >= 1,
    ;
}

proof fn gap_of_lengths(t: int, s: int, u: int)
    ensures
        (s - 4 * u) * (s - 2 * u) * t - (t - 4 * u) * (t - 2 * u) * s == (s - t) * (s * t - 8 * (u
            * u)),
{
    let (g, f) = ((s - 4 * u) * (s - 2 * u), (t - 4 * u) * (t - 2 * u));
    let (a, p, d, q, c, m) = (s * s, u * s, t * t, u * t, u * u, s * t);
    assert((s - 4 * u) * (s - 2 * u) == s * s - 6 * (u * s) + 8 * (u * u)) by (nonlinear_arith);
    assert((t - 4 * u) * (t - 2 * u) == t * t - 6 * (u * t) + 8 * (u * u)) by (nonlinear_arith);
    assert((a - 6 * p + 8 * c) * t == a * t - 6 * (p * t) + 8 * (c * t)) by (nonlinear_arith);
    assert((d - 6 * q + 8 * c) * s == d * s - 6 * (q * s) + 8 * (c * s)) by (nonlinear_arith);
    assert(u * s * t == u * t * s) by (nonlinear_arith);
    assert(s * s * t == s * (s * t)) by (nonlinear_arith);
    assert(t * t * s == t * (s * t)) by (nonlinear_arith);
    assert((s - t) * (m - 8 * c) == s * m - t * m - 8 * (c * s) + 8 * (c * t))
        by (nonlinear_arith);
}

/// A longer average weighs more against the long run than a shorter one, for all that is
/// cut off.
proof fn weights_cross(t: int, s: int, n: int, u: int)
    requires
        u >= 1,
        5 * u < t,
        t <= s,
        s <= n,
    ensures
        weighed(t, n, u) * weighed(n, s, u) <= weighed(s, n, u) * weighed(n, t, u),
{
    let f = (t - 4 * u) * (t - 2 * u);
    let g = (s - 4 * u) * (s - 2 * u);
    let b = shortened(n, u);
    let (x, y) = (weighed(t, n, u), weighed(n, t, u));
    let (v, w) = (weighed(s, n, u), weighed(n, s, u));
    if t == s {
        assert(x * w == v * y);
    } else {
        shortened_lengths(t, n, u);
        shortened_lengths(s, n, u);
        shortened_lengths(n, t, u);
        shortened_lengths(n, s, u);
        let c = (n - 4 * u) * (n - 2 * u);
        assert(g <= c) by (nonlinear_arith)
            requires
                g == (s - 4 * u) * (s - 2 * u),
                c == (n - 4 * u) * (n - 2 * u),
                s <= n,
                5 * u < s,
                u >= 1,
        ;
        assert(g <= 2 * (b * u)) by (nonlinear_arith)
            requires
                g <= c,
                c < b * u + u,
                3 * u <= b,
                u >= 1,
        ;
        let gap = g * t - f * s;
        gap_of_lengths(t, s, u);
        let whole = s * t - 8 * (u * u);
        assert(whole >= 17 * (u * u)) by (nonlinear_arith)
            requires
                whole == s * t - 8 * (u * u),
                5 * u < t,
                5 * u < s,
                u >= 1,
        ;
        assert(u * u >= 1) by (nonlinear_arith)
            requires
                u >= 1,
        ;
        assert(gap >= whole) by (nonlinear_arith)
            requires
                gap == (s - t) * whole,
                s - t >= 1,
                whole >= 0,
        ;
        let p = u * n * t;
        assert(n * whole >= 5 * p - 8 * (u * u * n)) by (nonlinear_arith)
            requires
                whole == s * t - 8 * (u * u),
                p == u * n * t,
                5 * u < s,
                0 < t,
                0 < n,
                u >= 1,
        ;
        assert(5 * (u * u * n) <= p) by (nonlinear_arith)
            requires
                p == u * n * t,
                5 * u < t,
                0 < n,
                u >= 1,
        ;
        assert(5 * (u * u * t) <= p) by (nonlinear_arith)
            requires
                p == u * n * t,
                5 * u < n,
                0 < t,
                u >= 1,
        ;
        let lack = 2 * (u * u * n) + u * n * t + u * u * t;
        assert(n * whole >= lack);
        assert(n * gap >= lack) by (nonlinear_arith)
            requires
                n * whole >= lack,
                gap >= whole,
                n > 0,
        ;
        let left = f * n * (b * s);
        let right = (g * n - u * n - u * u) * (b * t - u);
        assert(b * (n * gap) >= b * lack) by (nonlinear_arith)
            requires
                n * gap >= lack,
                b >= 0,
        ;
        assert(g * n * u <= 2 * (b * u) * n * u) by (nonlinear_arith)
            requires
                g <= 2 * (b * u),
                n > 0,
                u >= 1,
        ;
        crossed_terms(f, g, n, b, t, s, u);
        assert(left <= right);
        let (k, l) = (x * u * u, w * u);
        assert(k * l <= left) by (nonlinear_arith)
            requires
                k <= f * n,
                l <= b * s,
                0 <= k,
                0 <= l,
                left == f * n * (b * s),
        ;
        let (i, j) = (v * u * u, y * u);
        assert(0 <= b * t - u) by (nonlinear_arith)
            requires
                3 * u <= b,
                5 * u < t,
                u >= 1,
        ;
        assert(0 <= g * n - u * n - u * u) by (nonlinear_arith)
            requires
                3 * u * u <= g,
                5 * u < n,
                u >= 1,
        ;
        assert(right <= i * j) by (nonlinear_arith)
            requires
                g * n - u * n - u * u <= i,
                b * t - u <= j,
                0 <= b * t - u,
                0 <= g * n - u * n - u * u,
                right == (g * n - u * n - u * u) * (b * t - u),
        ;
        assert(x * w <= v * y) by (nonlinear_arith)
            requires
                (x * u * u) * (w * u) <= (v * u * u) * (y * u),
                u >= 1,
        ;
    }
}

proof fn crossed_terms(f: int, g: int, n: int, b: int, t: int, s: int, u: int)
    requires
        u >= 1,
        n >= 1,
        b >= 1,
        b * (n * (g * t - f * s)) >= b * (2 * (u * u * n) + u * n * t + u * u * t),
        g * n * u <= 2 * (b * u) * n * u,
    ensures
        f * n * (b * s) <= (g * n - u * n - u * u) * (b * t - u),
{
    let (p, q) = (g * t, f * s);
    assert(n * (p - q) == n * p - n * q) by (nonlinear_arith);
    let (more, less) = (n * p, n * q);
    assert(b * (more - less) == b * more - b * less) by (nonlinear_arith);
    assert(b * (n * (g * t)) == g * n * (b * t)) by (nonlinear_arith);
    assert(b * (n * (f * s)) == f * n * (b * s)) by (nonlinear_arith);
    let (i, j, m) = (u * u * n, u * n * t, u * u * t);
    assert(b * (2 * i + j + m) == 2 * (b * i) + b * j + b * m) by (nonlinear_arith);
    assert(b * (u * u * n) == b * u * n * u) by (nonlinear_arith);
    assert(2 * (b * u) * n * u == 2 * (b * u * n * u)) by (nonlinear_arith);
    let (c, h, k, l) = (g * n, u * n + u * u, b * t, u * n);
    assert((l + u * u) * k == l * k + u * u * k) by (nonlinear_arith);
    assert(u * n * (b * t) == b * (u * n * t)) by (nonlinear_arith);
    assert(u * u * (b * t) == b * (u * u * t)) by (nonlinear_arith);
    assert((c - h) * (k - u) == c * k - c * u - h * k + h * u) by (nonlinear_arith);
    assert((u * n + u * u) * u >= 0) by (nonlinear_arith)
        requires
            u >= 1,
            n >= 1,
    ;
}

proof fn rectification_in_units(rho_inf: Fixed, rho_t: Fixed)
    requires
        Fixed::decimal(5, 0).less(rho_t),
        rho_t.at_most(rho_inf),
        rho_inf.at_most(Fixed::decimal(2000, 0)),
    ensures
        ({
            let u = UNITS as int;
            let (n, t) = (rho_inf.units as int, rho_t.units as int);
            let (x, y) = (weighed(t, n, u), weighed(n, t, u));
            &&& 5 * u < t <= n
            &&& 1 <= x <= y < i64::MAX
            &&& 0 <= x * u / y <= u
            &&& RAdamModel::<Fixed>::rectification(rho_inf, rho_t) == Some(
                (Fixed { units: (x * u / y) as i64 }).root(),
            )
        }),
{
    let u = UNITS as int;
    let (n, t) = (rho_inf.units as int, rho_t.units as int);
    let (x, y) = (weighed(t, n, u), weighed(n, t, u));
    assert(ten_to(9) == 1_000_000_000) by {
        reveal_with_fuel(ten_to, 10);
    }
    shortened_lengths(t, n, u);
    shortened_lengths(n, t, u);
    shortened_lengths(n, n, u);
    weights_cross(t, n, n, u);
    let z = weighed(n, n, u);
    assert(x <= y) by (nonlinear_arith)
        requires
            x * z <= z * y,
            1 <= z,
    ;
    let (a, b) = (shortened(t, u), shortened(n, u));
    let limit: int = 2_000_000_000_000;
    assert(n * n <= 4_000_000_000_000_000_000_000_000) by (nonlinear_arith)
        requires
            0 <= n <= 2_000_000_000_000,
    ;
    assert(t * t <= 4_000_000_000_000_000_000_000_000) by (nonlinear_arith)
        requires
            0 <= t <= 2_000_000_000_000,
    ;
    assert(a <= 4_000_000_000_000_000);
    assert(b <= 4_000_000_000_000_000);
    assert(b * t <= 4_000_000_000_000_000 * 2_000_000_000_000) by (nonlinear_arith)
        requires
            0 <= b <= 4_000_000_000_000_000,
            0 <= t <= 2_000_000_000_000,
    ;
    assert(y <= 8_000_000_000_000_000_000);
    assert(0 <= x * u / y <= u) by (nonlinear_arith)
        requires
            1 <= x <= y,
            u >= 1,
    ;
    let (lower, low) = (Fixed { units: (t - 4 * u) as i64 }, Fixed { units: (t - 2 * u) as i64 });
    let (higher, high) = (
        Fixed { units: (n - 4 * u) as i64 },
        Fixed { units: (n - 2 * u) as i64 },
    );
    assert(rho_t.minus(Fixed::decimal(4, 0)) == lower);
    assert(rho_t.minus(Fixed::decimal(2, 0)) == low);
    assert(rho_inf.minus(Fixed::decimal(4, 0)) == higher);
    assert(rho_inf.minus(Fixed::decimal(2, 0)) == high);
    assert(lower.times(low) == (Fixed { units: a as i64 }));
    assert(higher.times(high) == (Fixed { units: b as i64 }));
    assert(a * n >= 0 && b * t >= 0) by (nonlinear_arith)
        requires
            a >= 0,
            b >= 0,
            n >= 0,
            t >= 0,
    ;
    let (top, bottom) = (Fixed { units: x as i64 }, Fixed { units: y as i64 });
    assert(lower.times(low).times(rho_inf) == top);
    assert(higher.times(high).times(rho_t) == bottom);
    assert(top.over(bottom) == (Fixed { units: (x * u / y) as i64 }));
}

/// The factor lies from zero to one, is one where the moving average has its length in
/// the long run, and does not fall where it grows. Stated of [`Fixed`], in which the
/// products of lengths up to two thousand are carried.
pub proof fn rectification_lies_within_one(rho_inf: Fixed, rho_t: Fixed, later: Fixed)
    requires
        Fixed::decimal(5, 0).less(rho_t),
        rho_t.at_most(later),
        later.at_most(rho_inf),
        rho_inf.at_most(Fixed::decimal(2000, 0)),
    ensures
        RAdamModel::<Fixed>::rectification(rho_inf, rho_t) matches Some(r) && {
            &&& zero::<Fixed>().at_most(r)
            &&& r.at_most(one())
            &&& rho_t == rho_inf ==> r == one::<Fixed>()
            &&& RAdamModel::<Fixed>::rectification(rho_inf, later) matches Some(q) && r.at_most(q)
        },
{
    let u = UNITS as int;
    let (n, t, s) = (rho_inf.units as int, rho_t.units as int, later.units as int);
    rectification_in_units(rho_inf, rho_t);
    rectification_in_units(rho_inf, later);
    weights_cross(t, s, n, u);
    let (x, y) = (weighed(t, n, u), weighed(n, t, u));
    let (v, w) = (weighed(s, n, u), weighed(n, s, u));
    let (q, r) = (x * u / y, v * u / w);
    vstd::arithmetic::div_mod::lemma_fundamental_div_mod(x * u, y);
    vstd::arithmetic::div_mod::lemma_mod_bound(x * u, y);
    vstd::arithmetic::div_mod::lemma_fundamental_div_mod(v * u, w);
    vstd::arithmetic::div_mod::lemma_mod_bound(v * u, w);
    assert(q <= r) by (nonlinear_arith)
        requires
            y * q <= x * u,
            v * u < w * r + w,
            x * w <= v * y,
            y >= 1,
            w >= 1,
            u >= 1,
    ;
    let (a, b) = (Fixed { units: q as i64 }, Fixed { units: r as i64 });
    a.order(b, a);
    one::<Fixed>().neutral(one());
    assert(ten_to(9) == 1_000_000_000) by {
        reveal_with_fuel(ten_to, 10);
    }
    a.order(one(), a);
    if rho_t == rho_inf {
        assert(q == u) by (nonlinear_arith)
            requires
                q == x * u / y,
                x == y,
                y >= 1,
        ;
    }
}

fn rectify<S: Single>(config: &RAdamConfig<S>, step: u64, beta2_pow_t: S::Wide) -> (r: Option<S>)
    ensures
        r == RAdamModel::<S>::rectification(
            RAdamModel::rho_inf(*config),
            RAdamModel::rho_t(*config, step, beta2_pow_t),
        ),
{
    let unit: S::Wide = <S::Wide as Real>::literal(1, 0);
    let two: S::Wide = <S::Wide as Real>::literal(2, 0);
    let four: S::Wide = <S::Wide as Real>::literal(4, 0);
    let beta2: S::Wide = config.beta2.widen();
    let time: S::Wide = <S::Wide as Double>::from_integer(step as u128);
    let rho_inf: S::Wide = two.div(unit.sub(beta2)).sub(unit);
    let rho_t: S::Wide = rho_inf.sub(
        two.mul(time).mul(beta2.powf(time)).div(unit.sub(beta2_pow_t)),
    );
    if <S::Wide as Real>::literal(5, 0).lt(rho_t) {
        let top: S::Wide = rho_t.sub(four).mul(rho_t.sub(two)).mul(rho_inf);
        let bottom: S::Wide = rho_inf.sub(four).mul(rho_inf.sub(two)).mul(rho_t);
        Some(S::round(top.div(bottom).sqrt()))
    } else {
        None
    }
}

/// The powers of the decay rates start at one: the first step multiplies them up to the
/// decay rates themselves. Every step counts.
pub proof fn radam_powers_start_with_the_decay_rates<S: Single>(
    optimizer: RAdamModel<S>,
    pairs: Seq<Pair<S>>,
)
    requires
        optimizer.stepped(pairs) is Ok,
    ensures
        optimizer.stepped(pairs) matches Ok((_, next)) && {
            &&& next.step_count == optimizer.step_count + 1
            &&& next.config == optimizer.config
            &&& optimizer.beta1_pow_t == one::<S::Wide>() ==> next.beta1_pow_t
                == optimizer.config.beta1.widened()
            &&& optimizer.beta2_pow_t == one::<S::Wide>() ==> next.beta2_pow_t
                == optimizer.config.beta2.widened()
            &&& optimizer.config.beta1 == one::<S>() ==> next.beta1_pow_t == optimizer.beta1_pow_t
            &&& optimizer.config.beta2 == one::<S>() ==> next.beta2_pow_t == optimizer.beta2_pow_t
        },
{
    let (a, b) = (optimizer.config.beta1.widened(), optimizer.config.beta2.widened());
    a.neutral(one());
    b.neutral(one());
    one::<S::Wide>().neutral(a);
    one::<S::Wide>().neutral(b);
    optimizer.beta1_pow_t.neutral(one());
    optimizer.beta2_pow_t.neutral(one());
    one::<S>().precisions(one());
}

/// The corrections of the two means go by the powers of their own decay rates. Each lies
/// from zero to one, is one once its decay rate has died away, and rises until then.
pub proof fn radam_corrections_die_away<S: Single>(
    config: RAdamConfig<S>,
    step: u64,
    beta1_pow_t: S::Wide,
    beta2_pow_t: S::Wide,
    later1: S::Wide,
    later2: S::Wide,
)
    requires
        in_unit_range(beta1_pow_t),
        in_unit_range(beta2_pow_t),
        in_unit_range(later1),
        in_unit_range(later2),
        later1.at_most(beta1_pow_t),
        later2.at_most(beta2_pow_t),
    ensures
        ({
            let rule = RAdamModel::rule(config, step, beta1_pow_t, beta2_pow_t);
            let later = RAdamModel::rule(config, step, later1, later2);
            &&& in_unit_range(rule.bc1)
            &&& in_unit_range(rule.bc2_sqrt)
            &&& beta1_pow_t == zero::<S::Wide>() ==> rule.bc1 == one::<S>()
            &&& beta2_pow_t == zero::<S::Wide>() ==> rule.bc2_sqrt == one::<S>()
            &&& one::<S::Wide>().minus(beta1_pow_t) == <S::Wide as Real>::decimal(25, -2)
                ==> rule.bc1 == S::rounded(<S::Wide as Real>::decimal(25, -2))
            &&& one::<S::Wide>().minus(beta2_pow_t) == <S::Wide as Real>::decimal(25, -2)
                ==> rule.bc2_sqrt == S::rounded(<S::Wide as Real>::decimal(5, -1))
            &&& rule.bc1.at_most(later.bc1)
            &&& rule.bc2_sqrt.at_most(later.bc2_sqrt)
            &&& rule.lr == config.lr && rule.eps == config.eps && rule.decoupled
                == config.decoupled_weight_decay && rule.weight_decay == config.weight_decay
            &&& rule.beta1 == config.beta1 && rule.beta2 == config.beta2
        }),
{
    plain_corrections::<S>(beta1_pow_t, later1);
    root_corrections::<S>(beta2_pow_t, later2);
}

/// A decay rate of zero averages over one gradient in the long run.
pub proof fn no_memory_averages_over_one<S: Single>(config: RAdamConfig<S>)
    requires
        config.beta2 == zero::<S>(),
    ensures
        RAdamModel::rho_inf(config) == one::<S::Wide>(),
{
    zero::<S>().precisions(zero());
    one::<S::Wide>().neutral(one());
    <S::Wide as Real>::decimal(2, 0).neutral(one());
    <S::Wide as Real>::decimals(2, 1, 0);
}

/// A decay rate of one half averages over three gradients in the long run and over one in
/// the first step.
pub proof fn half_a_decay_rate_averages_over_three<S: Single>(config: RAdamConfig<S>)
    requires
        config.beta2.widened() == <S::Wide as Real>::decimal(5, -1),
    ensures
        RAdamModel::rho_inf(config) == <S::Wide as Real>::decimal(3, 0),
        RAdamModel::rho_t(config, 1, config.beta2.widened()) == one::<S::Wide>(),
{
    let half = <S::Wide as Real>::decimal(5, -1);
    let two = <S::Wide as Real>::decimal(2, 0);
    half.neutral(half);
    half.powers(one());
    two.neutral(one());
    <S::Wide as Double>::integers(1);
    <S::Wide as Real>::decimals(4, 1, 0);
    <S::Wide as Real>::decimals(3, 2, 0);
}

/// Once the power of the decay rate has died away, the moving average has its length in
/// the long run.
pub proof fn old_averages_have_their_length<S: Single>(
    config: RAdamConfig<S>,
    step: u64,
    beta2_pow_t: S::Wide,
)
    requires
        config.beta2.widened().raised(<S::Wide as Double>::of_integer(step as u128))
            == zero::<S::Wide>(),
        beta2_pow_t == zero::<S::Wide>(),
        <S::Wide as Real>::decimal(2, 0).times(
            <S::Wide as Double>::of_integer(step as u128),
        ).finite(),
        RAdamModel::rho_inf(config).finite(),
    ensures
        RAdamModel::rho_t(config, step, beta2_pow_t).same(RAdamModel::rho_inf(config)),
{
    let unit = one::<S::Wide>();
    let length = <S::Wide as Real>::decimal(2, 0).times(
        <S::Wide as Double>::of_integer(step as u128),
    );
    unit.neutral(unit);
    nothing_taken(length);
    length.times(zero()).neutral(unit);
    nothing_added(RAdamModel::rho_inf(config), length.times(zero()));
}

/// The first step descends: without weight decay, an element whose gradient is not
/// negative does not grow, and one whose gradient is not positive does not shrink.
pub proof fn first_radam_step_descends<S: Single>(
    config: RAdamConfig<S>,
    pairs: Seq<Pair<S>>,
    i: int,
    k: int,
)
    requires
        radam_config_error(config) is None,
        0 <= i < pairs.len(),
        0 <= k < pairs[i].param.data.len(),
        config.weight_decay.same(zero()),
        pairs[i].grad.data[k].finite(),
        (RAdamModel {
            config,
            step_count: 0,
            beta1_pow_t: one(),
            beta2_pow_t: one(),
            slots: Seq::empty(),
        }).stepped(pairs) matches Ok((params, _)) && is_number(
            params[i].data[k],
        ),
    ensures
        (RAdamModel {
            config,
            step_count: 0,
            beta1_pow_t: one(),
            beta2_pow_t: one(),
            slots: Seq::empty(),
        }).stepped(pairs) matches Ok((params, _)) && against(
            pairs[i].grad.data[k],
            pairs[i].param.data[k],
            params[i].data[k],
        ),
{
    let unit = one::<S::Wide>();
    let (b1, b2) = (config.beta1.widened(), config.beta2.widened());
    b1.neutral(unit);
    unit.neutral(b1);
    b2.neutral(unit);
    unit.neutral(b2);
    zero_is_zero::<S>();
    widened_below_one(config.beta1);
    widened_below_one(config.beta2);
    unit_range_is_closed(config.beta1, one());
    root_corrections::<S>(b2, b2);
    let rule = RAdamModel::rule(config, 1, unit.times(b1), unit.times(b2));
    let (param, grad) = (pairs[i].param.data[k], pairs[i].grad.data[k]);
    let cell = Cell2(zero::<S>(), zero::<S>());
    match rule.rect {
        Some(rect) => {
            let next = rule.next(param, grad, cell);
            let scaled = next.0.over(rule.bc1).times(rule.lr).times(
                rule.bc2_sqrt.over(next.1.root().plus(rule.eps)),
            );
            param.fused_operands(scaled.times(rect), rect);
            scaled.fused_operands(rect, rect);
            rectification_of_long_averages::<S>(
                RAdamModel::rho_inf(config),
                RAdamModel::rho_t(config, 1, unit.times(b2)),
            );
        },
        None => {},
    }
    radam_descends(rule, param, grad, cell);
}

/// The RAdam optimizer.
pub struct RAdam<S: Single> {
    config: RAdamConfig<S>,
    step_count: u64,
    beta1_pow_t: S::Wide,
    beta2_pow_t: S::Wide,
    slots: Vec<Slot<Cell2<S>>>,
}

impl<S: Single> View for RAdam<S> {
    type V = RAdamModel<S>;

    closed spec fn view(&self) -> RAdamModel<S> {
        RAdamModel {
            config: self.config,
            step_count: self.step_count,
            beta1_pow_t: self.beta1_pow_t,
            beta2_pow_t: self.beta2_pow_t,
            slots: slot_models(self.slots@),
        }
    }
}

impl<S: Single> RAdam<S> {
    #[verifier::type_invariant]
    spec fn wf(&self) -> bool {
        &&& fraction(self.config.beta1)
        &&& fraction(self.config.beta2)
        &&& in_unit_range(self.beta1_pow_t)
        &&& in_unit_range(self.beta2_pow_t)
    }

    /// An optimizer that has taken no step.
    pub fn new(config: RAdamConfig<S>) -> (r: Result<RAdam<S>, AutodiffError>)
        ensures
            match r {
                Ok(optimizer) => {
                    &&& radam_config_error(config) is None
                    &&& optimizer@ == (RAdamModel {
                        config,
                        step_count: 0,
                        beta1_pow_t: one(),
                        beta2_pow_t: one(),
                        slots: Seq::empty(),
                    })
                },
                Err(e) => radam_config_error(config) == Some(e@),
            },
    {
        if !is_non_negative(config.lr) {
            return Err(tell("RAdam::new: lr must be finite and >= 0.0, got ", config.lr));
        }
        if !is_fraction(config.beta1) {
            return Err(tell("RAdam::new: beta1 must be in [0.0, 1.0), got ", config.beta1));
        }
        if !is_fraction(config.beta2) {
            return Err(tell("RAdam::new: beta2 must be in [0.0, 1.0), got ", config.beta2));
        }
        if !is_positive(config.eps) {
            return Err(tell("RAdam::new: eps must be finite and > 0.0, got ", config.eps));
        }
        if !is_non_negative(config.weight_decay) {
            return Err(
                tell(
                    "RAdam::new: weight_decay must be finite and >= 0.0, got ",
                    config.weight_decay,
                ),
            );
        }
        proof {
            unit_range_is_closed(one::<S::Wide>(), one());
        }
        let r = RAdam {
            config,
            step_count: 0,
            beta1_pow_t: <S::Wide as Real>::literal(1, 0),
            beta2_pow_t: <S::Wide as Real>::literal(1, 0),
            slots: Vec::new(),
        };
        assert(r@.slots =~= Seq::empty());
        Ok(r)
    }

    pub fn config(&self) -> (r: &RAdamConfig<S>)
        ensures
            *r == self@.config,
    {
        &self.config
    }

    /// The number of steps taken.
    pub fn step_count(&self) -> (r: u64)
        ensures
            r == self@.step_count,
    {
        self.step_count
    }

    /// Replaces the learning rate and leaves everything else as it is.
    pub fn set_lr(&mut self, new_lr: S) -> (r: Result<(), AutodiffError>)
        ensures
            match r {
                Ok(_) => {
                    &&& non_negative(new_lr)
                    &&& final(self)@ == (RAdamModel {
                        config: RAdamConfig { lr: new_lr, ..old(self)@.config },
                        ..old(self)@
                    })
                },
                Err(e) => {
                    &&& !non_negative(new_lr)
                    &&& e@ == told("RAdam::set_lr: lr must be finite and >= 0.0, got ", new_lr)
                    &&& final(self)@ == old(self)@
                },
            },
    {
        if !is_non_negative(new_lr) {
            return Err(tell("RAdam::set_lr: lr must be finite and >= 0.0, got ", new_lr));
        }
        proof {
            use_type_invariant(&*self);
        }
        self.config.lr = new_lr;
        Ok(())
    }

    /// One step. Returns the parameters after the step, in the order in which they
    /// were given.
    pub fn step(&mut self, params_and_grads: &[(&Tensor<S>, &Tensor<S>)]) -> (r: Result<
        Vec<Tensor<S>>,
        AutodiffError,
    >)
        ensures
            answers(
                r,
                old(self)@.stepped(inputs(params_and_grads@)),
                old(self)@,
                final(self)@,
            ),
    {
        match check_step("RAdam", "exp_avg/exp_avg_sq", &self.slots, params_and_grads) {
            Err(e) => {
                return Err(e);
            },
            Ok(_) => {},
        }
        let step_count: u64 = match count_step(self.step_count) {
            Err(e) => {
                return Err(e);
            },
            Ok(step_count) => step_count,
        };
        let unit: S::Wide = <S::Wide as Real>::literal(1, 0);
        let beta1_pow_t: S::Wide = self.beta1_pow_t.mul(self.config.beta1.widen());
        let beta2_pow_t: S::Wide = self.beta2_pow_t.mul(self.config.beta2.widen());
        let bc2: S::Wide = unit.sub(beta2_pow_t);
        let rect: Option<S> = rectify(&self.config, step_count, beta2_pow_t);
        let rule = RAdamRule {
            lr: self.config.lr,
            beta1: self.config.beta1,
            beta2: self.config.beta2,
            eps: self.config.eps,
            weight_decay: self.config.weight_decay,
            decoupled: self.config.decoupled_weight_decay,
            bc1: S::round(unit.sub(beta1_pow_t)),
            bc2_sqrt: S::round(bc2.sqrt()),
            rect,
        };
        let rules: Vec<RAdamRule<S>> = repeated(rule, params_and_grads.len());
        let blank = Cell2(S::literal(0, 0), S::literal(0, 0));
        proof {
            accepted_step_is_aligned(
                "RAdam",
                "exp_avg/exp_avg_sq",
                slot_models(self.slots@),
                inputs(params_and_grads@),
                blank,
            );
            assert(rules@ =~= Seq::new(
                inputs(params_and_grads@).len(),
                |k: int| RAdamModel::rule(self.config, step_count, beta1_pow_t, beta2_pow_t),
            ));
        }
        let slots: Vec<Slot<Cell2<S>>> = start(&self.slots, params_and_grads, blank);
        let (params, next) = advance(&rules, params_and_grads, &slots);
        proof {
            use_type_invariant(&*self);
            widened_fraction_in_unit_range(self.config.beta1);
            unit_range_is_closed(self.beta1_pow_t, self.config.beta1.widened());
            widened_fraction_in_unit_range(self.config.beta2);
            unit_range_is_closed(self.beta2_pow_t, self.config.beta2.widened());
        }
        self.step_count = step_count;
        self.beta1_pow_t = beta1_pow_t;
        self.beta2_pow_t = beta2_pow_t;
        self.slots = next;
        Ok(params)
    }
}

impl<S: Single> OptimizerStateDict<S> for RAdam<S> {
    open spec fn layout() -> Layout {
        Layout {
            kind: "radam"@,
            buffers: seq!["exp_avg"@, "exp_avg_sq"@],
            has_beta1: true,
            has_beta2: true,
            has_mu_product: false,
        }
    }

    open spec fn accumulated(&self) -> StateModel<S> {
        StateModel {
            step_count: self@.step_count,
            beta1_pow_t: Some(self@.beta1_pow_t),
            beta2_pow_t: Some(self@.beta2_pow_t),
            mu_product: None,
            slots: slots_data(self@.slots),
        }
    }

    open spec fn same_settings(&self, other: &Self) -> bool {
        self@.config == other@.config
    }

    fn state_dict(&self) -> (r: Result<StateDict<S>, AutodiffError>) {
        let names: [&str; 2] = ["exp_avg", "exp_avg_sq"];
        proof {
            use_type_invariant(self);
            reveal_strlit("exp_avg");
            reveal_strlit("exp_avg_sq");
            assert("exp_avg"@.len() != "exp_avg_sq"@.len());
            assert(names@.map_values(|name: &str| name@) =~= Self::layout().buffers);
        }
        let state = DecodedState {
            step_count: self.step_count,
            beta1_pow_t: Some(self.beta1_pow_t),
            beta2_pow_t: Some(self.beta2_pow_t),
            mu_product: None,
            slots: export_slots(&self.slots),
        };
        assert(state@ =~= self.accumulated());
        Ok(encode_state_dict("radam", &names, &state))
    }

    fn load_state_dict(&mut self, state: StateDict<S>) -> (r: Result<(), AutodiffError>) {
        let names: [&str; 2] = ["exp_avg", "exp_avg_sq"];
        assert(names@.map_values(|name: &str| name@) =~= Self::layout().buffers);
        match decode_state_dict("radam", &state, &names, true, true, false) {
            Err(e) => Err(e),
            Ok(decoded) => {
                proof {
                    use_type_invariant(&*self);
                    decoded_slots_fit(state@, Self::layout(), decoded);
                }
                self.step_count = decoded.step_count;
                match decoded.beta1_pow_t {
                    Some(value) => {
                        self.beta1_pow_t = value;
                    },
                    None => {},
                }
                match decoded.beta2_pow_t {
                    Some(value) => {
                        self.beta2_pow_t = value;
                    },
                    None => {},
                }
                self.slots = import_slots(&decoded.slots);
                assert(self.accumulated() =~= decoded@);
                Ok(())
            },
        }
    }
}

/// An optimizer that takes over a saved state is in all respects like the one that
/// saved it, if both have the same settings. The state is accepted unless the
/// counter of steps is at its end, where no further step could be counted.
pub proof fn radam_resumes_from_its_saved_state<S: Single>(
    saved: RAdam<S>,
    dict: StateDict<S>,
    resumed: RAdam<S>,
)
    requires
        saves(dict@, RAdam::<S>::layout(), saved.accumulated()),
        saved@.step_count <= largest_step_count(false),
        resumed.same_settings(&saved),
    ensures
        restored(dict@, RAdam::<S>::layout()) == Ok::<_, ErrorModel>(saved.accumulated()),
        restored(dict@, RAdam::<S>::layout()) == Ok::<_, ErrorModel>(resumed.accumulated())
            ==> resumed@ == saved@,
{
    reveal_strlit("exp_avg");
    reveal_strlit("exp_avg_sq");
    assert("exp_avg"@.len() != "exp_avg_sq"@.len());
    dict.entries_are_countable();
    saved_state_is_restored(dict@, RAdam::<S>::layout(), saved.accumulated());
    if resumed.accumulated() == saved.accumulated() {
        buffers_determine_slots::<S, _>(resumed@.slots, saved@.slots);
    }
}

} // verus!
