//! Adamax: Adam with the largest gradient in place of the second moment.
use crate::dict::StateDict;
use crate::error::{AutodiffError, ErrorModel, tell, told};
use crate::number::{
    Real, Single, fraction, in_unit_range, is_fraction, is_non_negative, is_number, is_positive,
    non_negative, one, positive, unit_range_is_closed, widened_fraction_in_unit_range, zero,
};
use crate::optim::param_group::answers;
use crate::optim::slots::{
    Cell2, Pair, Rule, Slot, SlotModel, accepted_step_is_aligned, advance, blend, blended,
    buffers_determine_slots, check_step, count_step, counted, decay_gradient, decayed, export_slots,
    import_slots, inputs, moved_params, next_slots, repeated, slot_models, slots_data, start,
    started, step_error,
};
use crate::optim::state_dict::{
    DecodedState, Layout, OptimizerStateDict, StateModel, decode_state_dict, decoded_slots_fit,
    encode_state_dict, largest_step_count, restored, saved_state_is_restored, saves,
};
use crate::tensor::{Tensor, TensorModel};
use crate::optim::direction::{
    against, blend_between_its_ends, blend_of_equals, corrected_rates,
    larger_dividend_lengthens_the_way, larger_divisor_shortens_the_way, nothing_taken, positive_sum,
    quotient_leads_against, sided, sided_blend, sided_product, widened_below_one, zero_is_zero,
};
use vstd::prelude::*;

verus! {

/// Hyperparameters of [`Adamax`].
#[derive(Debug, Clone, Copy, PartialEq)]
pub struct AdamaxConfig<S> {
    pub lr: S,
    pub beta1: S,
    pub beta2: S,
    pub eps: S,
    pub weight_decay: S,
}

impl<S: Single> Default for AdamaxConfig<S> {
    fn default() -> (r: Self)
        ensures
            r == (AdamaxConfig {
                lr: S::decimal(2, -3),
                beta1: S::decimal(9, -1),
                beta2: S::decimal(999, -3),
                eps: S::decimal(1, -8),
                weight_decay: S::decimal(0, 0),
            }),
    {
        AdamaxConfig {
            lr: S::literal(2, -3),
            beta1: S::literal(9, -1),
            beta2: S::literal(999, -3),
            eps: S::literal(1, -8),
            weight_decay: S::literal(0, 0),
        }
    }
}

/// Why hyperparameters are refused, if they are.
pub open spec fn adamax_config_error<S: Single>(config: AdamaxConfig<S>) -> Option<ErrorModel> {
    if !non_negative(config.lr) {
        Some(told("Adamax::new: lr must be finite and >= 0.0, got ", config.lr))
    } else if !fraction(config.beta1) {
        Some(told("Adamax::new: beta1 must be in [0.0, 1.0), got ", config.beta1))
    } else if !fraction(config.beta2) {
        Some(told("Adamax::new: beta2 must be in [0.0, 1.0), got ", config.beta2))
    } else if !positive(config.eps) {
        Some(told("Adamax::new: eps must be finite and > 0.0, got ", config.eps))
    } else if !non_negative(config.weight_decay) {
        Some(told("Adamax::new: weight_decay must be finite and >= 0.0, got ", config.weight_decay))
    } else {
        None
    }
}

/// What the elements of one slot go through in one step.
#[derive(Clone, Copy)]
pub struct AdamaxRule<S> {
    pub clr: S,
    pub beta1: S,
    pub beta2: S,
    pub eps: S,
    pub weight_decay: S,
}

impl<S: Single> Rule<S, Cell2<S>> for AdamaxRule<S> {
    open spec fn moved(self, param: S, grad: S, cell: Cell2<S>) -> S {
        let Cell2(exp_avg, exp_inf) = self.next(param, grad, cell);
        param.minus(self.clr.times(exp_avg).over(exp_inf))
    }

    open spec fn next(self, param: S, grad: S, cell: Cell2<S>) -> Cell2<S> {
        let g = decayed(self.weight_decay, param, grad);
        let scaled = self.beta2.times(cell.1);
        let current = g.magnitude().plus(self.eps);
        Cell2(
            blended(cell.0, g, one::<S>().minus(self.beta1), self.beta1),
            if scaled.undefined() || current.undefined() {
                S::not_a_number()
            } else if current.at_most(scaled) {
                scaled
            } else {
                current
            },
        )
    }

    fn apply(&self, param: S, grad: S, cell: Cell2<S>) -> (r: (S, Cell2<S>)) {
        let g: S = decay_gradient(self.weight_decay, param, grad);
        let exp_avg: S = blend(cell.0, g, S::literal(1, 0).sub(self.beta1), self.beta1);
        let scaled: S = self.beta2.mul(cell.1);
        let current: S = g.abs().add(self.eps);
        let exp_inf: S = if scaled.is_nan() || current.is_nan() {
            S::nan()
        } else if current.le(scaled) {
            scaled
        } else {
            current
        };
        (param.sub(self.clr.mul(exp_avg).div(exp_inf)), Cell2(exp_avg, exp_inf))
    }
}

/// An [`Adamax`] optimizer as a mathematical value.
#[verifier::ext_equal]
pub struct AdamaxModel<S: Single> {
    pub config: AdamaxConfig<S>,
    pub step_count: u64,
    pub beta1_pow_t: S::Wide,
    pub slots: Seq<SlotModel<Cell2<S>>>,
}

impl<S: Single> AdamaxModel<S> {
    /// The rule of every slot in a step after which the first decay rate has been
    /// multiplied up to the given power.
    pub open spec fn rule(config: AdamaxConfig<S>, beta1_pow_t: S::Wide) -> AdamaxRule<S> {
        AdamaxRule {
            clr: S::rounded(config.lr.widened().over(one::<S::Wide>().minus(beta1_pow_t))),
            beta1: config.beta1,
            beta2: config.beta2,
            eps: config.eps,
            weight_decay: config.weight_decay,
        }
    }

    /// One step.
    pub open spec fn stepped(
        self,
        pairs: Seq<Pair<S>>,
    ) -> Result<(Seq<TensorModel<S>>, AdamaxModel<S>), ErrorModel> {
        match step_error("Adamax", "exp_avg/exp_inf", self.slots, pairs) {
            Some(e) => Err(e),
            None => match counted(self.step_count) {
                Err(e) => Err(e),
                Ok(step_count) => {
                    let beta1_pow_t = self.beta1_pow_t.times(self.config.beta1.widened());
                    let rules = Seq::new(pairs.len(), |i: int| Self::rule(self.config, beta1_pow_t));
                    let slots = started(self.slots, pairs, Cell2(zero::<S>(), zero::<S>()));
                    Ok(
                        (
                            moved_params(rules, pairs, slots),
                            AdamaxModel {
                                config: self.config,
                                step_count,
                                beta1_pow_t,
                                slots: next_slots(rules, pairs, slots),
                            },
                        ),
                    )
                },
            },
        }
    }
}

/// The running maximum is the larger one of the decayed maximum before and the magnitude
/// of the gradient with epsilon: it is not below either, and it is one of them. It keeps
/// the order of the maxima before the step.
pub proof fn adamax_maximum<S: Single>(
    rule: AdamaxRule<S>,
    param: S,
    grad: S,
    cell: Cell2<S>,
    higher: S,
)
    requires
        in_unit_range(rule.beta2),
        zero::<S>().less(rule.eps),
        zero::<S>().at_most(cell.1),
        cell.1.at_most(higher),
        decayed(rule.weight_decay, param, grad).finite(),
        is_number(rule.beta2.times(cell.1)),
        is_number(rule.beta2.times(higher)),
        is_number(decayed(rule.weight_decay, param, grad).magnitude().plus(rule.eps)),
        !rule.beta2.times(cell.1).undefined(),
        !rule.beta2.times(higher).undefined(),
        !decayed(rule.weight_decay, param, grad).magnitude().plus(rule.eps).undefined(),
    ensures
        ({
            let g = decayed(rule.weight_decay, param, grad);
            let next = rule.next(param, grad, cell).1;
            let current = g.magnitude().plus(rule.eps);
            let before = rule.beta2.times(cell.1);
            &&& zero::<S>().less(next)
            &&& rule.eps.at_most(next)
            &&& current.at_most(next)
            &&& before.at_most(next)
            &&& next == current || next == before
            &&& before.at_most(cell.1)
            &&& next.at_most(rule.next(param, grad, Cell2(cell.0, higher)).1)
            &&& rule.beta2 == one::<S>() ==> cell.1.at_most(next)
        }),
{
    let g = decayed(rule.weight_decay, param, grad);
    let next = rule.next(param, grad, cell).1;
    let other = rule.next(param, grad, Cell2(cell.0, higher)).1;
    let current = g.magnitude().plus(rule.eps);
    let before = rule.beta2.times(cell.1);
    let after = rule.beta2.times(higher);
    zero_is_zero::<S>();
    g.signs(g);
    positive_sum(g.magnitude(), rule.eps);
    current.order(before, before);
    before.order(current, current);
    current.order(after, after);
    after.order(current, current);
    current.order(current, current);
    zero::<S>().order(current, next);
    rule.eps.order(current, next);
    rule.beta2.order(one(), cell.1);
    cell.1.neutral(one());
    cell.1.neutral(rule.beta2);
    one::<S>().neutral(cell.1);
    cell.1.order(higher, rule.beta2);
    higher.neutral(rule.beta2);
    before.order(after, other);
    cell.1.order(cell.1, cell.1);
}

/// A step leads against the gradient, weight decay included, where the mean of the
/// gradients points the same way. It still does after the step. A larger maximum makes
/// the step shorter, and a larger rate makes it longer.
pub proof fn adamax_descends<S: Single>(
    rule: AdamaxRule<S>,
    param: S,
    grad: S,
    cell: Cell2<S>,
    other: S,
)
    requires
        in_unit_range(rule.beta1),
        zero::<S>().at_most(rule.clr),
        cell.0.finite(),
        decayed(rule.weight_decay, param, grad).finite(),
        sided(decayed(rule.weight_decay, param, grad), cell.0),
        zero::<S>().less(rule.next(param, grad, cell).1),
        is_number(rule.moved(param, grad, cell)),
    ensures
        ({
            let g = decayed(rule.weight_decay, param, grad);
            let moved = rule.moved(param, grad, cell);
            let higher = Cell2(cell.0, other);
            let further = AdamaxRule { clr: other, ..rule };
            &&& against(g, param, moved)
            &&& sided(g, rule.next(param, grad, cell).0)
            &&& rule.next(param, grad, cell).1.at_most(rule.next(param, grad, higher).1)
                && is_number(rule.moved(param, grad, higher)) ==> against(
                g,
                rule.moved(param, grad, higher),
                moved,
            )
            &&& rule.clr.at_most(other) && is_number(further.moved(param, grad, cell)) ==> against(
                g,
                moved,
                further.moved(param, grad, cell),
            )
            &&& rule.next(param, grad, cell).1 == one::<S>() ==> moved == param.minus(
                rule.clr.times(rule.next(param, grad, cell).0),
            )
        }),
{
    let g = decayed(rule.weight_decay, param, grad);
    let next = rule.next(param, grad, cell);
    let way = rule.clr.times(next.0);
    param.fused_operands(way.over(next.1), g);
    way.fused_operands(next.1, g);
    rule.clr.fused_operands(next.0, g);
    g.order(g, g);
    sided_blend(g, cell.0, g, rule.beta1);
    sided_product(g, next.0, rule.clr);
    quotient_leads_against(g, param, way, next.1);
    let higher = rule.next(param, grad, Cell2(cell.0, other)).1;
    if next.1.at_most(higher) && is_number(rule.moved(param, grad, Cell2(cell.0, other))) {
        larger_divisor_shortens_the_way(g, param, way, next.1, higher);
    }
    if rule.clr.at_most(other) {
        let more = other.times(next.0);
        if is_number(param.minus(more.over(next.1))) {
            param.fused_operands(more.over(next.1), g);
            more.fused_operands(next.1, g);
            rule.clr.order(other, next.0);
            larger_dividend_lengthens_the_way(g, param, way, more, next.1);
        }
    }
    way.neutral(one());
}

/// The mean of the gradients is what it was where nothing is forgotten, is the gradient
/// where everything is, and stays what it is under gradients that equal it.
pub proof fn adamax_mean<S: Single>(rule: AdamaxRule<S>, param: S, grad: S, cell: Cell2<S>)
    requires
        in_unit_range(rule.beta1),
        cell.0.finite(),
        decayed(rule.weight_decay, param, grad).finite(),
        decayed(rule.weight_decay, param, grad).minus(cell.0).finite(),
    ensures
        ({
            let g = decayed(rule.weight_decay, param, grad);
            let next = rule.next(param, grad, cell).0;
            &&& rule.beta1 == zero::<S>() ==> next.same(g)
            &&& rule.beta1 == one::<S>() ==> next.same(cell.0)
            &&& cell.0 == g ==> next.same(g)
        }),
{
    let g = decayed(rule.weight_decay, param, grad);
    blend_between_its_ends(cell.0, g);
    rule.beta1.unit_interval(rule.beta1);
    blend_of_equals(g, one::<S>().minus(rule.beta1), rule.beta1);
}

/// The rate is at least the learning rate, is it once the first decay rate has died
/// away, and falls until then.
pub proof fn adamax_correction_dies_away<S: Single>(
    config: AdamaxConfig<S>,
    beta1_pow_t: S::Wide,
    later: S::Wide,
)
    requires
        non_negative(config.lr),
        fraction(beta1_pow_t),
        fraction(later),
        later.at_most(beta1_pow_t),
    ensures
        config.lr.at_most(AdamaxModel::rule(config, beta1_pow_t).clr),
        beta1_pow_t == zero::<S::Wide>() ==> AdamaxModel::rule(config, beta1_pow_t).clr
            == config.lr,
        AdamaxModel::rule(config, later).clr.at_most(AdamaxModel::rule(config, beta1_pow_t).clr),
{
    corrected_rates(config.lr, beta1_pow_t, later);
}

/// The power of the first decay rate starts at one: the first step multiplies it up to
/// the decay rate itself. Every step counts.
pub proof fn adamax_power_starts_with_the_decay_rate<S: Single>(
    optimizer: AdamaxModel<S>,
    pairs: Seq<Pair<S>>,
)
    requires
        optimizer.stepped(pairs) is Ok,
    ensures
        optimizer.stepped(pairs) matches Ok((_, next)) && {
            &&& next.step_count == optimizer.step_count + 1
            &&& next.config == optimizer.config
            &&& optimizer.beta1_pow_t == one::<S::Wide>() ==> next.beta1_pow_t
                == optimizer.config.beta1.widened()
            &&& optimizer.config.beta1 == one::<S>() ==> next.beta1_pow_t == optimizer.beta1_pow_t
        },
{
    let a = optimizer.config.beta1.widened();
    a.neutral(one());
    one::<S::Wide>().neutral(a);
    optimizer.beta1_pow_t.neutral(one());
    one::<S>().precisions(one());
}

/// The first step descends: without weight decay, an element whose gradient is not
/// negative does not grow, and one whose gradient is not positive does not shrink.
pub proof fn first_adamax_step_descends<S: Single>(
    config: AdamaxConfig<S>,
    pairs: Seq<Pair<S>>,
    i: int,
    k: int,
)
    requires
        adamax_config_error(config) is None,
        0 <= i < pairs.len(),
        0 <= k < pairs[i].param.data.len(),
        config.weight_decay.same(zero()),
        pairs[i].grad.data[k].finite(),
        (AdamaxModel {
            config,
            step_count: 0,
            beta1_pow_t: one(),
            slots: Seq::empty(),
        }).stepped(pairs) matches Ok((params, _)) && is_number(
            params[i].data[k],
        ),
    ensures
        (AdamaxModel {
            config,
            step_count: 0,
            beta1_pow_t: one(),
            slots: Seq::empty(),
        }).stepped(pairs) matches Ok((params, _)) && against(
            pairs[i].grad.data[k],
            pairs[i].param.data[k],
            params[i].data[k],
        ),
{
    let b = config.beta1.widened();
    let g = pairs[i].grad.data[k];
    b.neutral(one());
    one::<S::Wide>().neutral(b);
    zero_is_zero::<S>();
    widened_below_one(config.beta1);
    unit_range_is_closed(config.beta1, one());
    unit_range_is_closed(config.beta2, one());
    corrected_rates(config.lr, b, b);
    let rule = AdamaxModel::rule(config, one::<S::Wide>().times(b));
    zero::<S>().order(config.lr, rule.clr);
    let scaled = rule.beta2.times(zero());
    let current = g.magnitude().plus(rule.eps);
    nothing_taken(rule.beta2);
    scaled.order(scaled, scaled);
    g.signs(g);
    positive_sum(g.magnitude(), rule.eps);
    zero::<S>().order(current, current);
    current.order(current, current);
    adamax_maximum(rule, pairs[i].param.data[k], g, Cell2(zero::<S>(), zero::<S>()), zero());
    adamax_descends(rule, pairs[i].param.data[k], g, Cell2(zero::<S>(), zero::<S>()), zero());
}

/// The Adamax optimizer.
pub struct Adamax<S: Single> {
    config: AdamaxConfig<S>,
    step_count: u64,
    beta1_pow_t: S::Wide,
    slots: Vec<Slot<Cell2<S>>>,
}

impl<S: Single> View for Adamax<S> {
    type V = AdamaxModel<S>;

    closed spec fn view(&self) -> AdamaxModel<S> {
        AdamaxModel {
            config: self.config,
            step_count: self.step_count,
            beta1_pow_t: self.beta1_pow_t,
            slots: slot_models(self.slots@),
        }
    }
}

impl<S: Single> Adamax<S> {
    #[verifier::type_invariant]
    spec fn wf(&self) -> bool {
        &&& fraction(self.config.beta1)
        &&& fraction(self.config.beta2)
        &&& in_unit_range(self.beta1_pow_t)
    }

    /// An optimizer that has taken no step.
    pub fn new(config: AdamaxConfig<S>) -> (r: Result<Adamax<S>, AutodiffError>)
        ensures
            match r {
                Ok(optimizer) => {
                    &&& adamax_config_error(config) is None
                    &&& optimizer@ == (AdamaxModel {
                        config,
                        step_count: 0,
                        beta1_pow_t: one(),
                        slots: Seq::empty(),
                    })
                },
                Err(e) => adamax_config_error(config) == Some(e@),
            },
    {
        if !is_non_negative(config.lr) {
            return Err(tell("Adamax::new: lr must be finite and >= 0.0, got ", config.lr));
        }
        if !is_fraction(config.beta1) {
            return Err(tell("Adamax::new: beta1 must be in [0.0, 1.0), got ", config.beta1));
        }
        if !is_fraction(config.beta2) {
            return Err(tell("Adamax::new: beta2 must be in [0.0, 1.0), got ", config.beta2));
        }
        if !is_positive(config.eps) {
            return Err(tell("Adamax::new: eps must be finite and > 0.0, got ", config.eps));
        }
        if !is_non_negative(config.weight_decay) {
            return Err(
                tell(
                    "Adamax::new: weight_decay must be finite and >= 0.0, got ",
                    config.weight_decay,
                ),
            );
        }
        proof {
            unit_range_is_closed(one::<S::Wide>(), one());
        }
        let r = Adamax {
            config,
            step_count: 0,
            beta1_pow_t: <S::Wide as Real>::literal(1, 0),
            slots: Vec::new(),
        };
        assert(r@.slots =~= Seq::empty());
        Ok(r)
    }

    pub fn config(&self) -> (r: &AdamaxConfig<S>)
        ensures
            *r == self@.config,
    {
        &self.config
    }

    /// The number of steps taken.
    pub fn step_count(&self) -> (r: u64)
        ensures
            r == self@.step_count,
    {
        self.step_count
    }

    /// Replaces the learning rate and leaves everything else as it is.
    pub fn set_lr(&mut self, new_lr: S) -> (r: Result<(), AutodiffError>)
        ensures
            match r {
                Ok(_) => {
                    &&& non_negative(new_lr)
                    &&& final(self)@ == (AdamaxModel {
                        config: AdamaxConfig { lr: new_lr, ..old(self)@.config },
                        ..old(self)@
                    })
                },
                Err(e) => {
                    &&& !non_negative(new_lr)
                    &&& e@ == told("Adamax::set_lr: lr must be finite and >= 0.0, got ", new_lr)
                    &&& final(self)@ == old(self)@
                },
            },
    {
        if !is_non_negative(new_lr) {
            return Err(tell("Adamax::set_lr: lr must be finite and >= 0.0, got ", new_lr));
        }
        proof {
            use_type_invariant(&*self);
        }
        self.config.lr = new_lr;
        Ok(())
    }

    /// One step. Returns the parameters after the step, in the order in which they
    /// were given.
    pub fn step(&mut self, params_and_grads: &[(&Tensor<S>, &Tensor<S>)]) -> (r: Result<
        Vec<Tensor<S>>,
        AutodiffError,
    >)
        ensures
            answers(
                r,
                old(self)@.stepped(inputs(params_and_grads@)),
                old(self)@,
                final(self)@,
            ),
    {
        match check_step("Adamax", "exp_avg/exp_inf", &self.slots, params_and_grads) {
            Err(e) => {
                return Err(e);
            },
            Ok(_) => {},
        }
        let step_count: u64 = match count_step(self.step_count) {
            Err(e) => {
                return Err(e);
            },
            Ok(step_count) => step_count,
        };
        let beta1_pow_t: S::Wide = self.beta1_pow_t.mul(self.config.beta1.widen());
        let bias_correction: S::Wide = <S::Wide as Real>::literal(1, 0).sub(beta1_pow_t);
        let rule = AdamaxRule {
            clr: S::round(self.config.lr.widen().div(bias_correction)),
            beta1: self.config.beta1,
            beta2: self.config.beta2,
            eps: self.config.eps,
            weight_decay: self.config.weight_decay,
        };
        let rules: Vec<AdamaxRule<S>> = repeated(rule, params_and_grads.len());
        let blank = Cell2(S::literal(0, 0), S::literal(0, 0));
        proof {
            accepted_step_is_aligned(
                "Adamax",
                "exp_avg/exp_inf",
                slot_models(self.slots@),
                inputs(params_and_grads@),
                blank,
            );
            assert(rules@ =~= Seq::new(
                inputs(params_and_grads@).len(),
                |k: int| AdamaxModel::rule(self.config, beta1_pow_t),
            ));
        }
        let slots: Vec<Slot<Cell2<S>>> = start(&self.slots, params_and_grads, blank);
        let (params, next) = advance(&rules, params_and_grads, &slots);
        proof {
            use_type_invariant(&*self);
            widened_fraction_in_unit_range(self.config.beta1);
            unit_range_is_closed(self.beta1_pow_t, self.config.beta1.widened());
        }
        self.step_count = step_count;
        self.beta1_pow_t = beta1_pow_t;
        self.slots = next;
        Ok(params)
    }
}

impl<S: Single> OptimizerStateDict<S> for Adamax<S> {
    open spec fn layout() -> Layout {
        Layout {
            kind: "adamax"@,
            buffers: seq!["exp_avg"@, "exp_inf"@],
            has_beta1: true,
            has_beta2: false,
            has_mu_product: false,
        }
    }

    open spec fn accumulated(&self) -> StateModel<S> {
        StateModel {
            step_count: self@.step_count,
            beta1_pow_t: Some(self@.beta1_pow_t),
            beta2_pow_t: None,
            mu_product: None,
            slots: slots_data(self@.slots),
        }
    }

    open spec fn same_settings(&self, other: &Self) -> bool {
        self@.config == other@.config
    }

    fn state_dict(&self) -> (r: Result<StateDict<S>, AutodiffError>) {
        let names: [&str; 2] = ["exp_avg", "exp_inf"];
        proof {
            use_type_invariant(self);
            reveal_strlit("exp_avg");
            reveal_strlit("exp_inf");
            assert("exp_avg"@[4] != "exp_inf"@[4]);
            assert(names@.map_values(|name: &str| name@) =~= Self::layout().buffers);
        }
        let state = DecodedState {
            step_count: self.step_count,
            beta1_pow_t: Some(self.beta1_pow_t),
            beta2_pow_t: None,
            mu_product: None,
            slots: export_slots(&self.slots),
        };
        assert(state@ =~= self.accumulated());
        Ok(encode_state_dict("adamax", &names, &state))
    }

    fn load_state_dict(&mut self, state: StateDict<S>) -> (r: Result<(), AutodiffError>) {
        let names: [&str; 2] = ["exp_avg", "exp_inf"];
        assert(names@.map_values(|name: &str| name@) =~= Self::layout().buffers);
        match decode_state_dict("adamax", &state, &names, true, false, false) {
            Err(e) => Err(e),
            Ok(decoded) => {
                proof {
                    use_type_invariant(&*self);
                    decoded_slots_fit(state@, Self::layout(), decoded);
                }
                self.step_count = decoded.step_count;
                match decoded.beta1_pow_t {
                    Some(value) => {
                        self.beta1_pow_t = value;
                    },
                    None => {},
                }
                self.slots = import_slots(&decoded.slots);
                assert(self.accumulated() =~= decoded@);
                Ok(())
            },
        }
    }
}

/// An optimizer that takes over a saved state is in all respects like the one that
/// saved it, if both have the same settings. The state is accepted unless the
/// counter of steps is at its end, where no further step could be counted.
pub proof fn adamax_resumes_from_its_saved_state<S: Single>(
    saved: Adamax<S>,
    dict: StateDict<S>,
    resumed: Adamax<S>,
)
    requires
        saves(dict@, Adamax::<S>::layout(), saved.accumulated()),
        saved@.step_count <= largest_step_count(false),
        resumed.same_settings(&saved),
    ensures
        restored(dict@, Adamax::<S>::layout()) == Ok::<_, ErrorModel>(saved.accumulated()),
        restored(dict@, Adamax::<S>::layout()) == Ok::<_, ErrorModel>(resumed.accumulated())
            ==> resumed@ == saved@,
{
    reveal_strlit("exp_avg");
    reveal_strlit("exp_inf");
    assert("exp_avg"@[4] != "exp_inf"@[4]);
    dict.entries_are_countable();
    saved_state_is_restored(dict@, Adamax::<S>::layout(), saved.accumulated());
    if resumed.accumulated() == saved.accumulated() {
        buffers_determine_slots::<S, _>(resumed@.slots, saved@.slots);
    }
}

} // verus!
