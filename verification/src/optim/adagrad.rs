//! Adagrad: the learning rate of an element falls with its summed squared gradients.
use crate::dict::StateDict;
use crate::error::{AutodiffError, ErrorModel, tell, told};
use crate::number::{
    Double, Real, Single, is_non_negative, is_number, is_positive, non_negative, one, positive,
    zero,
};
use crate::optim::param_group::{
    ParamGroup, ParamGroupStep, SlotHparams, SlotwiseStep, answers, check_len_matches,
    resolve_slot_hparams, zip_params_grads,
};
use crate::optim::slots::{
    Cell1, Pair, Rule, Slot, SlotModel, accepted_step_is_aligned, advance, buffers_determine_slots,
    check_step, count_step, counted, decay_gradient, decayed, export_slots, import_slots, inputs,
    moved_params, next_slots, repeated, slot_models, slots_data, start, started, step_error,
};
use crate::optim::state_dict::{
    DecodedState, Layout, OptimizerStateDict, StateModel, decode_state_dict, decoded_slots_fit,
    encode_state_dict, largest_step_count, restored, saved_state_is_restored, saves,
};
use crate::tensor::{Tensor, TensorModel};
use crate::optim::direction::{
    adaptive_step_lengths, against, nothing_added, nothing_taken, number_has_a_side, positive_sum,
    quotient_leads_against, sided_product, zero_is_zero,
};
use vstd::prelude::*;

verus! {

/// Hyperparameters of [`Adagrad`].
#[derive(Debug, Clone, Copy, PartialEq)]
pub struct AdagradConfig<S> {
    pub lr: S,
    pub lr_decay: S,
    pub weight_decay: S,
    pub initial_accumulator_value: S,
    pub eps: S,
}

impl<S: Single> Default for AdagradConfig<S> {
    fn default() -> (r: Self)
        ensures
            r == (AdagradConfig {
                lr: S::decimal(1, -2),
                lr_decay: S::decimal(0, 0),
                weight_decay: S::decimal(0, 0),
                initial_accumulator_value: S::decimal(0, 0),
                eps: S::decimal(1, -10),
            }),
    {
        AdagradConfig {
            lr: S::literal(1, -2),
            lr_decay: S::literal(0, 0),
            weight_decay: S::literal(0, 0),
            initial_accumulator_value: S::literal(0, 0),
            eps: S::literal(1, -10),
        }
    }
}

/// Why hyperparameters are refused, if they are.
pub open spec fn adagrad_config_error<S: Single>(config: AdagradConfig<S>) -> Option<ErrorModel> {
    if !non_negative(config.lr) {
        Some(told("Adagrad::new: lr must be finite and >= 0.0, got ", config.lr))
    } else if !non_negative(config.lr_decay) {
        Some(told("Adagrad::new: lr_decay must be finite and >= 0.0, got ", config.lr_decay))
    } else if !non_negative(config.weight_decay) {
        Some(
            told("Adagrad::new: weight_decay must be finite and >= 0.0, got ", config.weight_decay),
        )
    } else if !non_negative(config.initial_accumulator_value) {
        Some(
            told(
                "Adagrad::new: initial_accumulator_value must be finite and >= 0.0, got ",
                config.initial_accumulator_value,
            ),
        )
    } else if !positive(config.eps) {
        Some(told("Adagrad::new: eps must be finite and > 0.0, got ", config.eps))
    } else {
        None
    }
}

/// What the elements of one slot go through in one step.
#[derive(Clone, Copy)]
pub struct AdagradRule<S> {
    pub weight_decay: S,
    pub eps: S,
    pub clr: S,
}

impl<S: Single> Rule<S, Cell1<S>> for AdagradRule<S> {
    open spec fn moved(self, param: S, grad: S, cell: Cell1<S>) -> S {
        let g = decayed(self.weight_decay, param, grad);
        let Cell1(sum) = self.next(param, grad, cell);
        param.minus(self.clr.times(g).over(sum.root().plus(self.eps)))
    }

    open spec fn next(self, param: S, grad: S, cell: Cell1<S>) -> Cell1<S> {
        let g = decayed(self.weight_decay, param, grad);
        Cell1(g.fused(g, cell.0))
    }

    fn apply(&self, param: S, grad: S, cell: Cell1<S>) -> (r: (S, Cell1<S>)) {
        let g: S = decay_gradient(self.weight_decay, param, grad);
        let sum: S = g.mul_add(g, cell.0);
        (param.sub(self.clr.mul(g).div(sum.sqrt().add(self.eps))), Cell1(sum))
    }
}

/// An [`Adagrad`] optimizer as a mathematical value.
#[verifier::ext_equal]
pub struct AdagradModel<S: Single> {
    pub config: AdagradConfig<S>,
    pub step_count: u64,
    pub slots: Seq<SlotModel<Cell1<S>>>,
}

impl<S: Single> AdagradModel<S> {
    /// The rule of a slot in step number `step`. The learning rate decays with the
    /// steps that came before.
    pub open spec fn rule(
        config: AdagradConfig<S>,
        step: u64,
        hparams: SlotHparams<S>,
    ) -> AdagradRule<S> {
        let before = <S::Wide as Double>::of_integer((step - 1) as u128);
        AdagradRule {
            weight_decay: hparams.weight_decay,
            eps: config.eps,
            clr: S::rounded(
                hparams.lr.widened().over(
                    one::<S::Wide>().plus(before.times(config.lr_decay.widened())),
                ),
            ),
        }
    }

    /// One step.
    pub open spec fn stepped(
        self,
        pairs: Seq<Pair<S>>,
        hparams: Seq<SlotHparams<S>>,
    ) -> Result<(Seq<TensorModel<S>>, AdagradModel<S>), ErrorModel> {
        match step_error("Adagrad", "state_sum", self.slots, pairs) {
            Some(e) => Err(e),
            None => match counted(self.step_count) {
                Err(e) => Err(e),
                Ok(step_count) => {
                    let rules = Seq::new(
                        pairs.len(),
                        |i: int| Self::rule(self.config, step_count, hparams[i]),
                    );
                    let slots = started(
                        self.slots,
                        pairs,
                        Cell1(self.config.initial_accumulator_value),
                    );
                    Ok(
                        (
                            moved_params(rules, pairs, slots),
                            AdagradModel {
                                config: self.config,
                                step_count,
                                slots: next_slots(rules, pairs, slots),
                            },
                        ),
                    )
                },
            },
        }
    }
}

/// A step leads against the gradient, weight decay included.
pub proof fn adagrad_descends<S: Single>(rule: AdagradRule<S>, param: S, grad: S, cell: Cell1<S>)
    requires
        zero::<S>().at_most(rule.clr),
        zero::<S>().less(rule.eps),
        is_number(rule.moved(param, grad, cell)),
    ensures
        against(decayed(rule.weight_decay, param, grad), param, rule.moved(param, grad, cell)),
        is_number(decayed(rule.weight_decay, param, grad)),
        is_number(rule.next(param, grad, cell).0),
{
    let g = decayed(rule.weight_decay, param, grad);
    let sum = rule.next(param, grad, cell).0;
    let d = sum.root().plus(rule.eps);
    let way = rule.clr.times(g);
    param.fused_operands(way.over(d), d);
    way.fused_operands(d, d);
    rule.clr.fused_operands(g, g);
    sum.root().fused_operands(rule.eps, d);
    sum.fused_operands(sum, sum);
    positive_sum(sum.root(), rule.eps);
    sided_product(g, g, rule.clr);
    quotient_leads_against(g, param, way, d);
}

/// The sum of squares never falls, starts as the square of the gradient, and keeps the
/// order of the sums before the step.
pub proof fn adagrad_sum_never_falls<S: Single>(
    rule: AdagradRule<S>,
    param: S,
    grad: S,
    cell: Cell1<S>,
    higher: Cell1<S>,
)
    requires
        is_number(rule.next(param, grad, cell).0),
    ensures
        ({
            let g = decayed(rule.weight_decay, param, grad);
            let sum = rule.next(param, grad, cell).0;
            &&& cell.0.at_most(sum)
            &&& cell.0 == zero::<S>() && g.finite() ==> sum.same(g.times(g))
            &&& g == one::<S>() ==> sum == one::<S>().plus(cell.0)
            &&& g == zero::<S>() && cell.0.finite() ==> sum.same(cell.0)
            &&& cell.0.at_most(higher.0) && is_number(rule.next(param, grad, higher).0)
                ==> sum.at_most(rule.next(param, grad, higher).0)
        }),
{
    let g = decayed(rule.weight_decay, param, grad);
    let sum = rule.next(param, grad, cell).0;
    g.fused_operands(g, cell.0);
    number_has_a_side(g);
    g.neutral(g);
    zero_is_zero::<S>();
    cell.0.neutral(g);
    cell.0.neutral(one());
}

/// A larger epsilon and a larger sum of squares make a step shorter, and a larger rate
/// makes it longer. A sum of four divides by two and epsilon.
pub proof fn adagrad_step_lengths<S: Single>(
    rule: AdagradRule<S>,
    param: S,
    grad: S,
    cell: Cell1<S>,
    other: S,
)
    requires
        zero::<S>().at_most(rule.clr),
        zero::<S>().less(rule.eps),
        is_number(rule.moved(param, grad, cell)),
    ensures
        ({
            let g = decayed(rule.weight_decay, param, grad);
            let moved = rule.moved(param, grad, cell);
            let wider = (AdagradRule { eps: other, ..rule }).moved(param, grad, cell);
            let further = (AdagradRule { clr: other, ..rule }).moved(param, grad, cell);
            let larger = rule.moved(param, grad, Cell1(other));
            &&& rule.eps.at_most(other) && is_number(wider) ==> against(g, wider, moved)
            &&& rule.clr.at_most(other) && is_number(further) ==> against(g, moved, further)
            &&& cell.0.at_most(other) && is_number(larger) ==> against(g, larger, moved)
            &&& rule.next(param, grad, cell).0 == S::decimal(4, 0) ==> moved == param.minus(
                rule.clr.times(g).over(S::decimal(2, 0).plus(rule.eps)),
            )
        }),
{
    let g = decayed(rule.weight_decay, param, grad);
    let sum = rule.next(param, grad, cell).0;
    let root = sum.root();
    let c = one::<S>();
    let d = root.over(c).plus(rule.eps);
    adagrad_descends(rule, param, grad, cell);
    root.neutral(c);
    zero_is_zero::<S>();
    S::decimals(0, 1, 0);
    g.neutral(one());
    one::<S>().neutral(g);
    adaptive_step_lengths(g, param, g, rule.clr, sum, c, rule.eps, other);
    if cell.0.at_most(other) && is_number(rule.moved(param, grad, Cell1(other))) {
        let more = rule.next(param, grad, Cell1(other)).0;
        more.root().neutral(c);
        adagrad_descends(rule, param, grad, Cell1(other));
        adagrad_sum_never_falls(rule, param, grad, cell, Cell1(other));
        adaptive_step_lengths(g, param, g, rule.clr, sum, c, rule.eps, more);
    }
}

/// The rate is never above the learning rate, is it in the first step, is half of it in
/// the second one at a decay of one, and does not grow from step to step.
pub proof fn adagrad_rate_decays<S: Single>(
    config: AdagradConfig<S>,
    step: u64,
    later: u64,
    hparams: SlotHparams<S>,
)
    requires
        non_negative(hparams.lr),
        non_negative(config.lr_decay),
        1 <= step <= later,
    ensures
        ({
            let rate = AdagradModel::rule(config, step, hparams).clr;
            let rate_later = AdagradModel::rule(config, later, hparams).clr;
            &&& zero::<S>().at_most(rate)
            &&& rate.at_most(hparams.lr)
            &&& rate_later.at_most(rate)
            &&& step == 1 ==> rate.same(hparams.lr)
            &&& step == 2 && config.lr_decay == one::<S>() ==> rate == S::rounded(
                hparams.lr.widened().over(<S::Wide as Real>::decimal(2, 0)),
            )
        }),
{
    let lr = hparams.lr;
    let unit = one::<S::Wide>();
    let decay = config.lr_decay.widened();
    let wide = lr.widened();
    let before = <S::Wide as Double>::of_integer((step - 1) as u128);
    let since = <S::Wide as Double>::of_integer((later - 1) as u128);
    <S::Wide as Double>::integers((step - 1) as u128);
    <S::Wide as Double>::integers((later - 1) as u128);
    zero_is_zero::<S>();
    zero_is_zero::<S::Wide>();
    <S::Wide as Real>::decimals(0, 1, 0);
    config.lr_decay.precisions(decay);
    lr.precisions(wide);
    let (a, b) = (before.times(decay), since.times(decay));
    let (c, d) = (unit.plus(a), unit.plus(b));
    before.signs(decay);
    since.signs(decay);
    before.fused_operands(decay, decay);
    since.fused_operands(decay, decay);
    unit.signs(a);
    unit.signs(b);
    unit.order(c, c);
    unit.order(d, d);
    zero::<S::Wide>().order(unit, c);
    zero::<S::Wide>().order(unit, d);
    before.order(since, decay);
    a.order(b, unit);
    unit.neutral(a);
    unit.neutral(b);
    wide.signs(c);
    wide.signs(d);
    zero::<S::Wide>().order(wide.over(c), c);
    zero::<S::Wide>().order(wide.over(d), d);
    wide.order(wide, wide);
    wide.neutral(unit);
    unit.order(c, wide);
    c.order(d, wide);
    lr.precisions(wide.over(c));
    lr.precisions(wide.over(d));
    zero::<S>().precisions(wide.over(c));
    <S::Wide as Double>::integers(1);
    <S::Wide as Real>::decimals(1, 1, 0);
    one::<S>().precisions(unit);
    unit.neutral(unit);
    if step == 1 {
        nothing_taken(decay);
        nothing_added(unit, a);
        c.order(unit, wide);
        wide.over(c).order(wide, wide);
        S::rounded(wide.over(c)).order(lr, lr);
    }
}

/// The first step descends: without weight decay, an element whose gradient is not
/// negative does not grow, and one whose gradient is not positive does not shrink.
pub proof fn first_adagrad_step_descends<S: Single>(
    config: AdagradConfig<S>,
    pairs: Seq<Pair<S>>,
    hparams: Seq<SlotHparams<S>>,
    i: int,
    k: int,
)
    requires
        adagrad_config_error(config) is None,
        0 <= i < pairs.len(),
        0 <= k < pairs[i].param.data.len(),
        non_negative(hparams[i].lr),
        hparams[i].weight_decay.same(zero()),
        (AdagradModel {
            config,
            step_count: 0,
            slots: Seq::empty(),
        }).stepped(pairs, hparams) matches Ok((params, _)) && is_number(
            params[i].data[k],
        ),
    ensures
        (AdagradModel {
            config,
            step_count: 0,
            slots: Seq::empty(),
        }).stepped(pairs, hparams) matches Ok((params, _)) && against(
            pairs[i].grad.data[k],
            pairs[i].param.data[k],
            params[i].data[k],
        ),
{
    adagrad_rate_decays(config, 1, 1, hparams[i]);
    adagrad_descends(
        AdagradModel::rule(config, 1, hparams[i]),
        pairs[i].param.data[k],
        pairs[i].grad.data[k],
        Cell1(config.initial_accumulator_value),
    );
}

/// The sums of squares start from the initial value: after the first step none is below
/// it, and one whose gradient is zero compares equal to it.
pub proof fn adagrad_starts_from_the_initial_value<S: Single>(
    config: AdagradConfig<S>,
    pairs: Seq<Pair<S>>,
    hparams: Seq<SlotHparams<S>>,
    i: int,
    k: int,
)
    requires
        adagrad_config_error(config) is None,
        0 <= i < pairs.len(),
        0 <= k < pairs[i].param.data.len(),
        hparams[i].weight_decay.same(zero()),
        (AdagradModel {
            config,
            step_count: 0,
            slots: Seq::empty(),
        }).stepped(pairs, hparams) matches Ok((_, next)) && is_number(
            next.slots[i].cells[k].0,
        ),
    ensures
        (AdagradModel {
            config,
            step_count: 0,
            slots: Seq::empty(),
        }).stepped(pairs, hparams) matches Ok((_, next)) && {
            let sum = next.slots[i].cells[k].0;
            &&& config.initial_accumulator_value.at_most(sum)
            &&& pairs[i].grad.data[k] == zero::<S>() ==> sum.same(
                config.initial_accumulator_value,
            )
        },
{
    let cell = Cell1(config.initial_accumulator_value);
    adagrad_sum_never_falls(
        AdagradModel::rule(config, 1, hparams[i]),
        pairs[i].param.data[k],
        pairs[i].grad.data[k],
        cell,
        cell,
    );
}

/// The Adagrad optimizer.
pub struct Adagrad<S: Single> {
    config: AdagradConfig<S>,
    step_count: u64,
    slots: Vec<Slot<Cell1<S>>>,
}

impl<S: Single> View for Adagrad<S> {
    type V = AdagradModel<S>;

    closed spec fn view(&self) -> AdagradModel<S> {
        AdagradModel {
            config: self.config,
            step_count: self.step_count,
            slots: slot_models(self.slots@),
        }
    }
}

impl<S: Single> Adagrad<S> {
    /// An optimizer that has taken no step.
    pub fn new(config: AdagradConfig<S>) -> (r: Result<Adagrad<S>, AutodiffError>)
        ensures
            match r {
                Ok(optimizer) => {
                    &&& adagrad_config_error(config) is None
                    &&& optimizer@ == (AdagradModel {
                        config,
                        step_count: 0,
                        slots: Seq::empty(),
                    })
                },
                Err(e) => adagrad_config_error(config) == Some(e@),
            },
    {
        if !is_non_negative(config.lr) {
            return Err(tell("Adagrad::new: lr must be finite and >= 0.0, got ", config.lr));
        }
        if !is_non_negative(config.lr_decay) {
            return Err(
                tell("Adagrad::new: lr_decay must be finite and >= 0.0, got ", config.lr_decay),
            );
        }
        if !is_non_negative(config.weight_decay) {
            return Err(
                tell(
                    "Adagrad::new: weight_decay must be finite and >= 0.0, got ",
                    config.weight_decay,
                ),
            );
        }
        if !is_non_negative(config.initial_accumulator_value) {
            return Err(
                tell(
                    "Adagrad::new: initial_accumulator_value must be finite and >= 0.0, got ",
                    config.initial_accumulator_value,
                ),
            );
        }
        if !is_positive(config.eps) {
            return Err(tell("Adagrad::new: eps must be finite and > 0.0, got ", config.eps));
        }
        let r = Adagrad {
            config,
            step_count: 0,
            slots: Vec::new(),
        };
        assert(r@.slots =~= Seq::empty());
        Ok(r)
    }

    pub fn config(&self) -> (r: &AdagradConfig<S>)
        ensures
            *r == self@.config,
    {
        &self.config
    }

    /// The number of steps taken.
    pub fn step_count(&self) -> (r: u64)
        ensures
            r == self@.step_count,
    {
        self.step_count
    }

    /// Replaces the learning rate and leaves everything else as it is.
    pub fn set_lr(&mut self, new_lr: S) -> (r: Result<(), AutodiffError>)
        ensures
            match r {
                Ok(_) => {
                    &&& non_negative(new_lr)
                    &&& final(self)@ == (AdagradModel {
                        config: AdagradConfig { lr: new_lr, ..old(self)@.config },
                        ..old(self)@
                    })
                },
                Err(e) => {
                    &&& !non_negative(new_lr)
                    &&& e@ == told("Adagrad::set_lr: lr must be finite and >= 0.0, got ", new_lr)
                    &&& final(self)@ == old(self)@
                },
            },
    {
        if !is_non_negative(new_lr) {
            return Err(tell("Adagrad::set_lr: lr must be finite and >= 0.0, got ", new_lr));
        }
        self.config.lr = new_lr;
        Ok(())
    }

    /// One step with the configured learning rate and weight decay. Returns the
    /// parameters after the step, in the order in which they were given.
    pub fn step(&mut self, params_and_grads: &[(&Tensor<S>, &Tensor<S>)]) -> (r: Result<
        Vec<Tensor<S>>,
        AutodiffError,
    >)
        ensures
            answers(
                r,
                old(self)@.stepped(
                    inputs(params_and_grads@),
                    Seq::new(
                        params_and_grads@.len(),
                        |i: int|
                            SlotHparams {
                                lr: old(self)@.config.lr,
                                weight_decay: old(self)@.config.weight_decay,
                            },
                    ),
                ),
                old(self)@,
                final(self)@,
            ),
    {
        let hparams: Vec<SlotHparams<S>> = repeated(
            SlotHparams { lr: self.config.lr, weight_decay: self.config.weight_decay },
            params_and_grads.len(),
        );
        self.step_with_slot_hparams(params_and_grads, &hparams)
    }

    /// One step with a learning rate and a weight decay for each slot.
    pub fn step_with_slot_hparams(
        &mut self,
        params_and_grads: &[(&Tensor<S>, &Tensor<S>)],
        hparams: &Vec<SlotHparams<S>>,
    ) -> (r: Result<Vec<Tensor<S>>, AutodiffError>)
        requires
            hparams@.len() == params_and_grads@.len(),
        ensures
            answers(
                r,
                old(self)@.stepped(inputs(params_and_grads@), hparams@),
                old(self)@,
                final(self)@,
            ),
    {
        match check_step("Adagrad", "state_sum", &self.slots, params_and_grads) {
            Err(e) => {
                return Err(e);
            },
            Ok(_) => {},
        }
        let step_count: u64 = match count_step(self.step_count) {
            Err(e) => {
                return Err(e);
            },
            Ok(step_count) => step_count,
        };
        let before: S::Wide = <S::Wide as Double>::from_integer((step_count - 1) as u128);
        let slowdown: S::Wide = <S::Wide as Real>::literal(1, 0).add(
            before.mul(self.config.lr_decay.widen()),
        );
        let mut rules: Vec<AdagradRule<S>> = Vec::new();
        let mut i: usize = 0;
        while i < hparams.len()
            invariant
                i <= hparams@.len(),
                rules@.len() == i,
                slowdown == one::<S::Wide>().plus(
                    <S::Wide as Double>::of_integer((step_count - 1) as u128).times(
                        self.config.lr_decay.widened(),
                    ),
                ),
                forall|k: int|
                    0 <= k < i ==> #[trigger] rules@[k] == AdagradModel::rule(
                        self.config,
                        step_count,
                        hparams@[k],
                    ),
            decreases hparams@.len() - i,
        {
            rules.push(
                AdagradRule {
                    weight_decay: hparams[i].weight_decay,
                    eps: self.config.eps,
                    clr: S::round(hparams[i].lr.widen().div(slowdown)),
                },
            );
            i = i + 1;
        }
        let blank = Cell1(self.config.initial_accumulator_value);
        proof {
            accepted_step_is_aligned(
                "Adagrad",
                "state_sum",
                slot_models(self.slots@),
                inputs(params_and_grads@),
                blank,
            );
            assert(rules@ =~= Seq::new(
                inputs(params_and_grads@).len(),
                |k: int| AdagradModel::rule(self.config, step_count, hparams@[k]),
            ));
        }
        let slots: Vec<Slot<Cell1<S>>> = start(&self.slots, params_and_grads, blank);
        let (params, next) = advance(&rules, params_and_grads, &slots);
        self.step_count = step_count;
        self.slots = next;
        Ok(params)
    }
}

impl<S: Single> SlotwiseStep<S> for Adagrad<S> {
    open spec fn name() -> Seq<char> {
        "Adagrad"@
    }

    open spec fn default_hparams(state: AdagradModel<S>) -> SlotHparams<S> {
        SlotHparams { lr: state.config.lr, weight_decay: state.config.weight_decay }
    }

    open spec fn stepped(
        state: AdagradModel<S>,
        pairs: Seq<Pair<S>>,
        hparams: Seq<SlotHparams<S>>,
    ) -> Result<(Seq<TensorModel<S>>, AdagradModel<S>), ErrorModel> {
        state.stepped(pairs, hparams)
    }
}

impl<S: Single> ParamGroupStep<S> for Adagrad<S> {
    fn step_with_groups(
        &mut self,
        params: &[&Tensor<S>],
        grads: &[&Tensor<S>],
        groups: &[ParamGroup<S>],
    ) -> (r: Result<Vec<Tensor<S>>, AutodiffError>) {
        match check_len_matches("Adagrad", params, grads) {
            Err(e) => {
                return Err(e);
            },
            Ok(_) => {},
        }
        let hparams: Vec<SlotHparams<S>> = match resolve_slot_hparams(
            groups,
            params.len(),
            self.config.lr,
            self.config.weight_decay,
            "Adagrad",
        ) {
            Err(e) => {
                return Err(e);
            },
            Ok(hparams) => hparams,
        };
        let pairs: Vec<(&Tensor<S>, &Tensor<S>)> = zip_params_grads(params, grads);
        self.step_with_slot_hparams(pairs.as_slice(), &hparams)
    }
}

impl<S: Single> OptimizerStateDict<S> for Adagrad<S> {
    open spec fn layout() -> Layout {
        Layout {
            kind: "adagrad"@,
            buffers: seq!["state_sum"@],
            has_beta1: false,
            has_beta2: false,
            has_mu_product: false,
        }
    }

    open spec fn accumulated(&self) -> StateModel<S> {
        StateModel {
            step_count: self@.step_count,
            beta1_pow_t: None,
            beta2_pow_t: None,
            mu_product: None,
            slots: slots_data(self@.slots),
        }
    }

    open spec fn same_settings(&self, other: &Self) -> bool {
        self@.config == other@.config
    }

    fn state_dict(&self) -> (r: Result<StateDict<S>, AutodiffError>) {
        let names: [&str; 1] = ["state_sum"];
        proof {
            reveal_strlit("state_sum");
            assert(names@.map_values(|name: &str| name@) =~= Self::layout().buffers);
        }
        let state = DecodedState {
            step_count: self.step_count,
            beta1_pow_t: None,
            beta2_pow_t: None,
            mu_product: None,
            slots: export_slots(&self.slots),
        };
        assert(state@ =~= self.accumulated());
        Ok(encode_state_dict("adagrad", &names, &state))
    }

    fn load_state_dict(&mut self, state: StateDict<S>) -> (r: Result<(), AutodiffError>) {
        let names: [&str; 1] = ["state_sum"];
        assert(names@.map_values(|name: &str| name@) =~= Self::layout().buffers);
        match decode_state_dict("adagrad", &state, &names, false, false, false) {
            Err(e) => Err(e),
            Ok(decoded) => {
                proof {
                    decoded_slots_fit(state@, Self::layout(), decoded);
                }
                self.step_count = decoded.step_count;
                self.slots = import_slots(&decoded.slots);
                assert(self.accumulated() =~= decoded@);
                Ok(())
            },
        }
    }
}

/// An optimizer that takes over a saved state is in all respects like the one that
/// saved it, if both have the same settings. The state is accepted unless the
/// counter of steps is at its end, where no further step could be counted.
pub proof fn adagrad_resumes_from_its_saved_state<S: Single>(
    saved: Adagrad<S>,
    dict: StateDict<S>,
    resumed: Adagrad<S>,
)
    requires
        saves(dict@, Adagrad::<S>::layout(), saved.accumulated()),
        saved@.step_count <= largest_step_count(false),
        resumed.same_settings(&saved),
    ensures
        restored(dict@, Adagrad::<S>::layout()) == Ok::<_, ErrorModel>(saved.accumulated()),
        restored(dict@, Adagrad::<S>::layout()) == Ok::<_, ErrorModel>(resumed.accumulated())
            ==> resumed@ == saved@,
{
    reveal_strlit("state_sum");
    dict.entries_are_countable();
    saved_state_is_restored(dict@, Adagrad::<S>::layout(), saved.accumulated());
    if resumed.accumulated() == saved.accumulated() {
        buffers_determine_slots::<S, _>(resumed@.slots, saved@.slots);
    }
}

} // verus!
