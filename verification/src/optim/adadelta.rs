//! Adadelta: steps are scaled by the ratio of two running averages.
use crate::dict::StateDict;
use crate::error::{AutodiffError, ErrorModel, tell, told};
use crate::number::{
    Real, Single, fraction, in_unit_range, is_fraction, is_non_negative, is_number, is_positive,
    non_negative, one, positive, unit_range_is_closed, zero,
};
use crate::optim::param_group::answers;
use crate::optim::slots::{
    Cell2, Pair, Rule, Slot, SlotModel, accepted_step_is_aligned, advance, buffers_determine_slots,
    check_step, count_step, counted, decay_gradient, decayed, export_slots, import_slots, inputs,
    moved_params, next_slots, repeated, slot_models, slots_data, start, started, step_error,
};
use crate::optim::state_dict::{
    DecodedState, Layout, OptimizerStateDict, StateModel, decode_state_dict, decoded_slots_fit,
    encode_state_dict, largest_step_count, restored, saved_state_is_restored, saves,
};
use crate::tensor::{Tensor, TensorModel};
use crate::optim::direction::{
    against, average_of_ones, average_of_squares, averages_are_ordered, difference_leads_against,
    fading_average, positive_sum, sided_product, squares_between_their_ends, zero_is_zero,
};
use vstd::prelude::*;

verus! {

/// Hyperparameters of [`Adadelta`].
#[derive(Debug, Clone, Copy, PartialEq)]
pub struct AdadeltaConfig<S> {
    pub lr: S,
    pub rho: S,
    pub eps: S,
    pub weight_decay: S,
}

impl<S: Single> Default for AdadeltaConfig<S> {
    fn default() -> (r: Self)
        ensures
            r == (AdadeltaConfig {
                lr: S::decimal(1, 0),
                rho: S::decimal(9, -1),
                eps: S::decimal(1, -6),
                weight_decay: S::decimal(0, 0),
            }),
    {
        AdadeltaConfig {
            lr: S::literal(1, 0),
            rho: S::literal(9, -1),
            eps: S::literal(1, -6),
            weight_decay: S::literal(0, 0),
        }
    }
}

/// Why hyperparameters are refused, if they are.
pub open spec fn adadelta_config_error<S: Single>(config: AdadeltaConfig<S>) -> Option<ErrorModel> {
    if !non_negative(config.lr) {
        Some(told("Adadelta::new: lr must be finite and >= 0.0, got ", config.lr))
    } else if !fraction(config.rho) {
        Some(told("Adadelta::new: rho must be in [0.0, 1.0), got ", config.rho))
    } else if !positive(config.eps) {
        Some(told("Adadelta::new: eps must be finite and > 0.0, got ", config.eps))
    } else if !non_negative(config.weight_decay) {
        Some(
            told(
                "Adadelta::new: weight_decay must be finite and >= 0.0, got ",
                config.weight_decay,
            ),
        )
    } else {
        None
    }
}

/// What the elements of one slot go through in one step.
#[derive(Clone, Copy)]
pub struct AdadeltaRule<S> {
    pub lr: S,
    pub rho: S,
    pub eps: S,
    pub weight_decay: S,
}

impl<S: Single> AdadeltaRule<S> {
    /// The running average of squared gradients after the step.
    pub open spec fn square_avg(self, param: S, grad: S, cell: Cell2<S>) -> S {
        let g = decayed(self.weight_decay, param, grad);
        self.rho.fused(cell.0, one::<S>().minus(self.rho).times(g).times(g))
    }

    /// How far the element moves, before the learning rate is applied.
    pub open spec fn delta(self, param: S, grad: S, cell: Cell2<S>) -> S {
        let g = decayed(self.weight_decay, param, grad);
        let std = self.square_avg(param, grad, cell).plus(self.eps).root();
        cell.1.plus(self.eps).root().over(std).times(g)
    }
}

impl<S: Single> Rule<S, Cell2<S>> for AdadeltaRule<S> {
    open spec fn moved(self, param: S, grad: S, cell: Cell2<S>) -> S {
        param.minus(self.lr.times(self.delta(param, grad, cell)))
    }

    open spec fn next(self, param: S, grad: S, cell: Cell2<S>) -> Cell2<S> {
        let delta = self.delta(param, grad, cell);
        Cell2(
            self.square_avg(param, grad, cell),
            self.rho.fused(cell.1, one::<S>().minus(self.rho).times(delta).times(delta)),
        )
    }

    fn apply(&self, param: S, grad: S, cell: Cell2<S>) -> (r: (S, Cell2<S>)) {
        let g: S = decay_gradient(self.weight_decay, param, grad);
        let rest: S = S::literal(1, 0).sub(self.rho);
        let square_avg: S = self.rho.mul_add(cell.0, rest.mul(g).mul(g));
        let std: S = square_avg.add(self.eps).sqrt();
        let delta: S = cell.1.add(self.eps).sqrt().div(std).mul(g);
        let acc_delta: S = self.rho.mul_add(cell.1, rest.mul(delta).mul(delta));
        (param.sub(self.lr.mul(delta)), Cell2(square_avg, acc_delta))
    }
}

/// An [`Adadelta`] optimizer as a mathematical value.
#[verifier::ext_equal]
pub struct AdadeltaModel<S: Single> {
    pub config: AdadeltaConfig<S>,
    pub step_count: u64,
    pub slots: Seq<SlotModel<Cell2<S>>>,
}

impl<S: Single> AdadeltaModel<S> {
    /// The rule of every slot.
    pub open spec fn rule(config: AdadeltaConfig<S>) -> AdadeltaRule<S> {
        AdadeltaRule {
            lr: config.lr,
            rho: config.rho,
            eps: config.eps,
            weight_decay: config.weight_decay,
        }
    }

    /// One step.
    pub open spec fn stepped(
        self,
        pairs: Seq<Pair<S>>,
    ) -> Result<(Seq<TensorModel<S>>, AdadeltaModel<S>), ErrorModel> {
        match step_error("Adadelta", "square_avg/acc_delta", self.slots, pairs) {
            Some(e) => Err(e),
            None => match counted(self.step_count) {
                Err(e) => Err(e),
                Ok(step_count) => {
                    let rules = Seq::new(pairs.len(), |i: int| Self::rule(self.config));
                    let slots = started(self.slots, pairs, Cell2(zero::<S>(), zero::<S>()));
                    Ok(
                        (
                            moved_params(rules, pairs, slots),
                            AdadeltaModel {
                                config: self.config,
                                step_count,
                                slots: next_slots(rules, pairs, slots),
                            },
                        ),
                    )
                },
            },
        }
    }
}

/// A step leads against the gradient, weight decay included. The mean squares of the
/// gradients and of the changes are not negative after it.
pub proof fn adadelta_descends<S: Single>(
    rule: AdadeltaRule<S>,
    param: S,
    grad: S,
    cell: Cell2<S>,
)
    requires
        in_unit_range(rule.rho),
        zero::<S>().at_most(rule.lr),
        zero::<S>().less(rule.eps),
        zero::<S>().at_most(cell.0),
        is_number(rule.moved(param, grad, cell)),
    ensures
        ({
            let g = decayed(rule.weight_decay, param, grad);
            let next = rule.next(param, grad, cell);
            &&& is_number(g)
            &&& against(g, param, rule.moved(param, grad, cell))
            &&& zero::<S>().at_most(next.0)
            &&& zero::<S>().at_most(cell.1) && is_number(next.1) ==> zero::<S>().at_most(next.1)
        }),
{
    let g = decayed(rule.weight_decay, param, grad);
    let next = rule.next(param, grad, cell);
    let delta = rule.delta(param, grad, cell);
    let std = next.0.plus(rule.eps).root();
    let top = cell.1.plus(rule.eps).root();
    let ratio = top.over(std);
    let way = rule.lr.times(delta);
    param.fused_operands(way, g);
    rule.lr.fused_operands(delta, g);
    ratio.fused_operands(g, g);
    top.fused_operands(std, g);
    next.0.plus(rule.eps).fused_operands(g, g);
    next.0.fused_operands(rule.eps, g);
    cell.1.plus(rule.eps).fused_operands(g, g);
    average_of_squares(rule.rho, cell.0, g);
    positive_sum(next.0, rule.eps);
    next.0.plus(rule.eps).order(g, g);
    top.signs(std);
    sided_product(g, g, ratio);
    sided_product(g, delta, rule.lr);
    difference_leads_against(g, param, way);
    if zero::<S>().at_most(cell.1) && is_number(next.1) {
        average_of_squares(rule.rho, cell.1, delta);
    }
}

/// The change is the gradient where the mean squares of the changes before and of the
/// gradients are the same, unless they are beyond all numbers: the element goes back by
/// the learning rate times the gradient.
pub proof fn adadelta_changes_by_what_it_sees<S: Single>(
    rule: AdadeltaRule<S>,
    param: S,
    grad: S,
    cell: Cell2<S>,
)
    requires
        cell.1 == rule.next(param, grad, cell).0,
        cell.1.plus(rule.eps).root().over(S::decimal(2, 0)).less(cell.1.plus(rule.eps).root()),
    ensures
        rule.moved(param, grad, cell) == param.minus(
            rule.lr.times(decayed(rule.weight_decay, param, grad)),
        ),
{
    let g = decayed(rule.weight_decay, param, grad);
    let top = cell.1.plus(rule.eps).root();
    top.neutral(one());
    g.neutral(one());
    one::<S>().neutral(g);
}

/// A larger mean square of the changes before makes a step longer, and so does a larger
/// learning rate. A larger mean square of the gradients makes it shorter.
pub proof fn adadelta_step_lengths<S: Single>(
    rule: AdadeltaRule<S>,
    param: S,
    grad: S,
    cell: Cell2<S>,
    other: S,
)
    requires
        in_unit_range(rule.rho),
        zero::<S>().at_most(rule.lr),
        zero::<S>().less(rule.eps),
        zero::<S>().at_most(cell.0),
        is_number(rule.moved(param, grad, cell)),
    ensures
        ({
            let g = decayed(rule.weight_decay, param, grad);
            let moved = rule.moved(param, grad, cell);
            let further = (AdadeltaRule { lr: other, ..rule }).moved(param, grad, cell);
            let livelier = rule.moved(param, grad, Cell2(cell.0, other));
            let steeper = rule.moved(param, grad, Cell2(other, cell.1));
            &&& rule.lr.at_most(other) && is_number(further) ==> against(g, moved, further)
            &&& cell.1.at_most(other) && is_number(livelier) ==> against(g, moved, livelier)
            &&& cell.0.at_most(other) && is_number(steeper) ==> against(g, steeper, moved)
        }),
{
    let g = decayed(rule.weight_decay, param, grad);
    let next = rule.next(param, grad, cell);
    let delta = rule.delta(param, grad, cell);
    let std = next.0.plus(rule.eps).root();
    let top = cell.1.plus(rule.eps).root();
    let ratio = top.over(std);
    adadelta_descends(rule, param, grad, cell);
    param.fused_operands(rule.lr.times(delta), g);
    rule.lr.fused_operands(delta, g);
    ratio.fused_operands(g, g);
    top.fused_operands(std, g);
    next.0.plus(rule.eps).fused_operands(g, g);
    next.0.fused_operands(rule.eps, g);
    cell.1.plus(rule.eps).fused_operands(g, g);
    cell.1.fused_operands(rule.eps, g);
    positive_sum(next.0, rule.eps);
    next.0.plus(rule.eps).order(g, g);
    top.signs(std);
    sided_product(g, g, ratio);
    if rule.lr.at_most(other) {
        let way = other.times(delta);
        if is_number(param.minus(way)) {
            param.fused_operands(way, g);
            rule.lr.order(other, delta);
            rule.lr.times(delta).order(way, param);
            way.order(rule.lr.times(delta), param);
        }
    }
    if cell.1.at_most(other) && is_number(rule.moved(param, grad, Cell2(cell.0, other))) {
        let more = other.plus(rule.eps).root();
        let further = more.over(std);
        param.fused_operands(rule.lr.times(further.times(g)), g);
        rule.lr.fused_operands(further.times(g), g);
        further.fused_operands(g, g);
        more.fused_operands(std, g);
        other.plus(rule.eps).fused_operands(g, g);
        cell.1.order(other, rule.eps);
        cell.1.plus(rule.eps).order(other.plus(rule.eps), g);
        top.order(more, std);
        ratios_order_the_ways(g, param, rule.lr, ratio, further);
    }
    if cell.0.at_most(other) && is_number(rule.moved(param, grad, Cell2(other, cell.1))) {
        let sum = rule.next(param, grad, Cell2(other, cell.1)).0;
        let wide = sum.plus(rule.eps).root();
        let less = top.over(wide);
        param.fused_operands(rule.lr.times(less.times(g)), g);
        rule.lr.fused_operands(less.times(g), g);
        less.fused_operands(g, g);
        top.fused_operands(wide, g);
        sum.plus(rule.eps).fused_operands(g, g);
        sum.fused_operands(rule.eps, g);
        averages_are_ordered(
            rule.rho,
            cell.0,
            other,
            one::<S>().minus(rule.rho).times(g).times(g),
        );
        next.0.order(sum, rule.eps);
        next.0.plus(rule.eps).order(sum.plus(rule.eps), g);
        std.order(wide, top);
        ratios_order_the_ways(g, param, rule.lr, less, ratio);
    }
}

proof fn ratios_order_the_ways<S: Real>(g: S, param: S, lr: S, low: S, high: S)
    requires
        is_number(g),
        zero::<S>().at_most(lr),
        low.at_most(high),
        is_number(param.minus(lr.times(low.times(g)))),
        is_number(param.minus(lr.times(high.times(g)))),
    ensures
        against(g, param.minus(lr.times(low.times(g))), param.minus(lr.times(high.times(g)))),
{
    let (x, y) = (low.times(g), high.times(g));
    let (a, b) = (lr.times(x), lr.times(y));
    param.fused_operands(a, g);
    param.fused_operands(b, g);
    lr.fused_operands(x, g);
    lr.fused_operands(y, g);
    low.order(high, g);
    x.order(y, lr);
    y.order(x, lr);
    x.neutral(lr);
    y.neutral(lr);
    a.order(b, param);
    b.order(a, param);
}

/// The mean squares are what they were where nothing is forgotten. Where everything is,
/// they are the squares of the gradient and of the change by which the element goes back
/// at a learning rate of one. A mean square of one stays one under gradients of one.
pub proof fn adadelta_means<S: Single>(
    rule: AdadeltaRule<S>,
    param: S,
    grad: S,
    cell: Cell2<S>,
    delta: S,
)
    requires
        in_unit_range(rule.rho),
        cell.0.finite(),
        cell.1.finite(),
        decayed(rule.weight_decay, param, grad).times(
            decayed(rule.weight_decay, param, grad),
        ).finite(),
        decayed(rule.weight_decay, param, grad).finite(),
        delta == rule.delta(param, grad, cell),
        delta.finite(),
        delta.times(delta).finite(),
    ensures
        ({
            let g = decayed(rule.weight_decay, param, grad);
            let next = rule.next(param, grad, cell);
            &&& rule.rho == zero::<S>() ==> next.0.same(g.times(g)) && next.1.same(
                delta.times(delta),
            )
            &&& rule.rho == one::<S>() ==> next.0.same(cell.0) && next.1.same(cell.1)
            &&& cell.0 == one::<S>() && g == one::<S>() ==> next.0 == one::<S>()
            &&& cell.0 == one::<S>() && g == zero::<S>() ==> next.0.same(rule.rho)
            &&& cell.1 == one::<S>() && delta == zero::<S>() ==> next.1.same(rule.rho)
            &&& cell.1 == one::<S>() && delta == one::<S>() ==> next.1 == one::<S>()
            &&& rule.lr == one::<S>() ==> rule.moved(param, grad, cell) == param.minus(delta)
        }),
{
    let g = decayed(rule.weight_decay, param, grad);
    squares_between_their_ends(cell.0, g);
    squares_between_their_ends(cell.1, delta);
    average_of_ones(rule.rho);
    fading_average(rule.rho);
    delta.neutral(one());
    one::<S>().neutral(delta);
}

/// The first step descends: without weight decay, an element whose gradient is not
/// negative does not grow, and one whose gradient is not positive does not shrink.
pub proof fn first_adadelta_step_descends<S: Single>(
    config: AdadeltaConfig<S>,
    pairs: Seq<Pair<S>>,
    i: int,
    k: int,
)
    requires
        adadelta_config_error(config) is None,
        0 <= i < pairs.len(),
        0 <= k < pairs[i].param.data.len(),
        config.weight_decay.same(zero()),
        (AdadeltaModel {
            config,
            step_count: 0,
            slots: Seq::empty(),
        }).stepped(pairs) matches Ok((params, _)) && is_number(
            params[i].data[k],
        ),
    ensures
        (AdadeltaModel {
            config,
            step_count: 0,
            slots: Seq::empty(),
        }).stepped(pairs) matches Ok((params, _)) && against(
            pairs[i].grad.data[k],
            pairs[i].param.data[k],
            params[i].data[k],
        ),
{
    zero_is_zero::<S>();
    unit_range_is_closed(config.rho, one());
    adadelta_descends(
        AdadeltaModel::rule(config),
        pairs[i].param.data[k],
        pairs[i].grad.data[k],
        Cell2(zero::<S>(), zero::<S>()),
    );
}

/// The Adadelta optimizer.
pub struct Adadelta<S: Single> {
    config: AdadeltaConfig<S>,
    step_count: u64,
    slots: Vec<Slot<Cell2<S>>>,
}

impl<S: Single> View for Adadelta<S> {
    type V = AdadeltaModel<S>;

    closed spec fn view(&self) -> AdadeltaModel<S> {
        AdadeltaModel {
            config: self.config,
            step_count: self.step_count,
            slots: slot_models(self.slots@),
        }
    }
}

impl<S: Single> Adadelta<S> {
    /// An optimizer that has taken no step.
    pub fn new(config: AdadeltaConfig<S>) -> (r: Result<Adadelta<S>, AutodiffError>)
        ensures
            match r {
                Ok(optimizer) => {
                    &&& adadelta_config_error(config) is None
                    &&& optimizer@ == (AdadeltaModel {
                        config,
                        step_count: 0,
                        slots: Seq::empty(),
                    })
                },
                Err(e) => adadelta_config_error(config) == Some(e@),
            },
    {
        if !is_non_negative(config.lr) {
            return Err(tell("Adadelta::new: lr must be finite and >= 0.0, got ", config.lr));
        }
        if !is_fraction(config.rho) {
            return Err(tell("Adadelta::new: rho must be in [0.0, 1.0), got ", config.rho));
        }
        if !is_positive(config.eps) {
            return Err(tell("Adadelta::new: eps must be finite and > 0.0, got ", config.eps));
        }
        if !is_non_negative(config.weight_decay) {
            return Err(
                tell(
                    "Adadelta::new: weight_decay must be finite and >= 0.0, got ",
                    config.weight_decay,
                ),
            );
        }
        let r = Adadelta {
            config,
            step_count: 0,
            slots: Vec::new(),
        };
        assert(r@.slots =~= Seq::empty());
        Ok(r)
    }

    pub fn config(&self) -> (r: &AdadeltaConfig<S>)
        ensures
            *r == self@.config,
    {
        &self.config
    }

    /// The number of steps taken.
    pub fn step_count(&self) -> (r: u64)
        ensures
            r == self@.step_count,
    {
        self.step_count
    }

    /// Replaces the learning rate and leaves everything else as it is.
    pub fn set_lr(&mut self, new_lr: S) -> (r: Result<(), AutodiffError>)
        ensures
            match r {
                Ok(_) => {
                    &&& non_negative(new_lr)
                    &&& final(self)@ == (AdadeltaModel {
                        config: AdadeltaConfig { lr: new_lr, ..old(self)@.config },
                        ..old(self)@
                    })
                },
                Err(e) => {
                    &&& !non_negative(new_lr)
                    &&& e@ == told("Adadelta::set_lr: lr must be finite and >= 0.0, got ", new_lr)
                    &&& final(self)@ == old(self)@
                },
            },
    {
        if !is_non_negative(new_lr) {
            return Err(tell("Adadelta::set_lr: lr must be finite and >= 0.0, got ", new_lr));
        }
        self.config.lr = new_lr;
        Ok(())
    }

    /// One step. Returns the parameters after the step, in the order in which they
    /// were given.
    pub fn step(&mut self, params_and_grads: &[(&Tensor<S>, &Tensor<S>)]) -> (r: Result<
        Vec<Tensor<S>>,
        AutodiffError,
    >)
        ensures
            answers(
                r,
                old(self)@.stepped(inputs(params_and_grads@)),
                old(self)@,
                final(self)@,
            ),
    {
        match check_step("Adadelta", "square_avg/acc_delta", &self.slots, params_and_grads) {
            Err(e) => {
                return Err(e);
            },
            Ok(_) => {},
        }
        let step_count: u64 = match count_step(self.step_count) {
            Err(e) => {
                return Err(e);
            },
            Ok(step_count) => step_count,
        };
        let rule = AdadeltaRule {
            lr: self.config.lr,
            rho: self.config.rho,
            eps: self.config.eps,
            weight_decay: self.config.weight_decay,
        };
        let rules: Vec<AdadeltaRule<S>> = repeated(rule, params_and_grads.len());
        let blank = Cell2(S::literal(0, 0), S::literal(0, 0));
        proof {
            accepted_step_is_aligned(
                "Adadelta",
                "square_avg/acc_delta",
                slot_models(self.slots@),
                inputs(params_and_grads@),
                blank,
            );
            assert(rules@ =~= Seq::new(
                inputs(params_and_grads@).len(),
                |k: int| AdadeltaModel::rule(self.config),
            ));
        }
        let slots: Vec<Slot<Cell2<S>>> = start(&self.slots, params_and_grads, blank);
        let (params, next) = advance(&rules, params_and_grads, &slots);
        self.step_count = step_count;
        self.slots = next;
        Ok(params)
    }
}

impl<S: Single> OptimizerStateDict<S> for Adadelta<S> {
    open spec fn layout() -> Layout {
        Layout {
            kind: "adadelta"@,
            buffers: seq!["square_avg"@, "acc_delta"@],
            has_beta1: false,
            has_beta2: false,
            has_mu_product: false,
        }
    }

    open spec fn accumulated(&self) -> StateModel<S> {
        StateModel {
            step_count: self@.step_count,
            beta1_pow_t: None,
            beta2_pow_t: None,
            mu_product: None,
            slots: slots_data(self@.slots),
        }
    }

    open spec fn same_settings(&self, other: &Self) -> bool {
        self@.config == other@.config
    }

    fn state_dict(&self) -> (r: Result<StateDict<S>, AutodiffError>) {
        let names: [&str; 2] = ["square_avg", "acc_delta"];
        proof {
            reveal_strlit("square_avg");
            reveal_strlit("acc_delta");
            assert("square_avg"@.len() != "acc_delta"@.len());
            assert(names@.map_values(|name: &str| name@) =~= Self::layout().buffers);
        }
        let state = DecodedState {
            step_count: self.step_count,
            beta1_pow_t: None,
            beta2_pow_t: None,
            mu_product: None,
            slots: export_slots(&self.slots),
        };
        assert(state@ =~= self.accumulated());
        Ok(encode_state_dict("adadelta", &names, &state))
    }

    fn load_state_dict(&mut self, state: StateDict<S>) -> (r: Result<(), AutodiffError>) {
        let names: [&str; 2] = ["square_avg", "acc_delta"];
        assert(names@.map_values(|name: &str| name@) =~= Self::layout().buffers);
        match decode_state_dict("adadelta", &state, &names, false, false, false) {
            Err(e) => Err(e),
            Ok(decoded) => {
                proof {
                    decoded_slots_fit(state@, Self::layout(), decoded);
                }
                self.step_count = decoded.step_count;
                self.slots = import_slots(&decoded.slots);
                assert(self.accumulated() =~= decoded@);
                Ok(())
            },
        }
    }
}

/// An optimizer that takes over a saved state is in all respects like the one that
/// saved it, if both have the same settings. The state is accepted unless the
/// counter of steps is at its end, where no further step could be counted.
pub proof fn adadelta_resumes_from_its_saved_state<S: Single>(
    saved: Adadelta<S>,
    dict: StateDict<S>,
    resumed: Adadelta<S>,
)
    requires
        saves(dict@, Adadelta::<S>::layout(), saved.accumulated()),
        saved@.step_count <= largest_step_count(false),
        resumed.same_settings(&saved),
    ensures
        restored(dict@, Adadelta::<S>::layout()) == Ok::<_, ErrorModel>(saved.accumulated()),
        restored(dict@, Adadelta::<S>::layout()) == Ok::<_, ErrorModel>(resumed.accumulated())
            ==> resumed@ == saved@,
{
    reveal_strlit("square_avg");
    reveal_strlit("acc_delta");
    assert("square_avg"@.len() != "acc_delta"@.len());
    dict.entries_are_countable();
    saved_state_is_restored(dict@, Adadelta::<S>::layout(), saved.accumulated());
    if resumed.accumulated() == saved.accumulated() {
        buffers_determine_slots::<S, _>(resumed@.slots, saved@.slots);
    }
}

} // verus!
