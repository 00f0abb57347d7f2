//! LAMB: Adam steps that are scaled layer by layer with a trust ratio.
//!
//! # 非有限 norm の扱い
//!
//! A step is refused where a moment, the norm of a parameter or of its change, or a
//! trust ratio is not finite. A moment that has become infinite would stay so, and
//! its element would never move again. A refused step leaves the optimizer as it
//! was.
use crate::dict::StateDict;
use crate::error::{AutodiffError, ErrorModel, tell, told};
use crate::number::{
    Real, Single, fraction, in_unit_range, is_fraction, is_non_negative, is_number, is_positive,
    non_negative, one, positive, unit_range_is_closed, widened_fraction_in_unit_range, zero,
};
use crate::optim::adamw::{AdamWModel, StepInput};
use crate::optim::param_group::{
    ParamGroup, ParamGroupStep, SlotHparams, SlotwiseStep, answers, check_len_matches,
    resolve_slot_hparams, zip_params_grads,
};
use crate::optim::slots::{
    Cell2, Pair, Rule, Slot, SlotModel, accepted_step_is_aligned, advance, aligned,
    buffers_determine_slots, check_gradients, count_step, counted, export_slots, fresh_slots,
    gradient_error, import_slots, inputs, models, moved_param, moved_params, next_slot, next_slots,
    pair_error, refuse_slot_count, repeated, slot_count_changed, slot_models, slots_data, start,
    started, step_error,
};
use crate::optim::state_dict::{
    DecodedState, Layout, OptimizerStateDict, StateModel, decode_state_dict, decoded_slots_fit,
    encode_state_dict, largest_step_count, restored, saved_state_is_restored, saves,
};
use crate::tensor::{Tensor, TensorModel, same_shape, shape_mismatch, with_shape};
use crate::text::{followed_by, followed_by_count, joined, numeral};
use crate::optim::direction::{
    against, aligned_product, average_between_its_ends, average_of_ones, average_of_squares,
    average_on_one_side, corrected_rates, divisor_is_positive, fading_average, number_has_a_side,
    root_corrections, sided, sided_product, sided_quotient, squares_between_their_ends,
    zero_is_zero,
};
use vstd::prelude::*;

verus! {

/// Hyperparameters of [`Lamb`].
#[derive(Debug, Clone, Copy, PartialEq)]
pub struct LambConfig<S> {
    pub lr: S,
    pub beta1: S,
    pub beta2: S,
    pub eps: S,
    pub weight_decay: S,
}

impl<S: Single> Default for LambConfig<S> {
    fn default() -> (r: Self)
        ensures
            r == (LambConfig {
                lr: S::decimal(1, -3),
                beta1: S::decimal(9, -1),
                beta2: S::decimal(999, -3),
                eps: S::decimal(1, -6),
                weight_decay: S::decimal(0, 0),
            }),
    {
        LambConfig {
            lr: S::literal(1, -3),
            beta1: S::literal(9, -1),
            beta2: S::literal(999, -3),
            eps: S::literal(1, -6),
            weight_decay: S::literal(0, 0),
        }
    }
}

/// Why hyperparameters are refused, if they are.
pub open spec fn lamb_config_error<S: Single>(config: LambConfig<S>) -> Option<ErrorModel> {
    if !non_negative(config.lr) {
        Some(told("Lamb::new: lr must be finite and >= 0.0, got ", config.lr))
    } else if !fraction(config.beta1) {
        Some(told("Lamb::new: beta1 must be in [0.0, 1.0), got ", config.beta1))
    } else if !fraction(config.beta2) {
        Some(told("Lamb::new: beta2 must be in [0.0, 1.0), got ", config.beta2))
    } else if !positive(config.eps) {
        Some(told("Lamb::new: eps must be finite and > 0.0, got ", config.eps))
    } else if !non_negative(config.weight_decay) {
        Some(told("Lamb::new: weight_decay must be finite and >= 0.0, got ", config.weight_decay))
    } else {
        None
    }
}

/// How the elements of one slot change in one step, before the trust ratio is
/// applied: the rule gives the change in place of the element after the step.
#[derive(Clone, Copy)]
pub struct LambRule<S> {
    pub lr: S,
    pub beta1: S,
    pub beta2: S,
    pub eps: S,
    pub weight_decay: S,
    pub step_size: S,
    pub bias_correction2_sqrt: S,
}

impl<S: Single> Rule<S, Cell2<S>> for LambRule<S> {
    open spec fn moved(self, param: S, grad: S, cell: Cell2<S>) -> S {
        let Cell2(m, v) = self.next(param, grad, cell);
        let s = self.step_size.times(m).over(
            v.root().over(self.bias_correction2_sqrt).plus(self.eps),
        );
        if self.weight_decay.same(zero()) {
            s
        } else {
            self.lr.times(self.weight_decay).fused(param, s)
        }
    }

    open spec fn next(self, param: S, grad: S, cell: Cell2<S>) -> Cell2<S> {
        Cell2(
            self.beta1.fused(cell.0, one::<S>().minus(self.beta1).times(grad)),
            self.beta2.fused(cell.1, one::<S>().minus(self.beta2).times(grad).times(grad)),
        )
    }

    fn apply(&self, param: S, grad: S, cell: Cell2<S>) -> (r: (S, Cell2<S>)) {
        let unit: S = S::literal(1, 0);
        let m: S = self.beta1.mul_add(cell.0, unit.sub(self.beta1).mul(grad));
        let v: S = self.beta2.mul_add(cell.1, unit.sub(self.beta2).mul(grad).mul(grad));
        let denom: S = v.sqrt().div(self.bias_correction2_sqrt).add(self.eps);
        let s: S = self.step_size.mul(m).div(denom);
        let t: S = if self.weight_decay.eq(S::literal(0, 0)) {
            s
        } else {
            self.lr.mul(self.weight_decay).mul_add(param, s)
        };
        (t, Cell2(m, v))
    }
}

/// The sum of the squares of the first `n` numbers, added up in order.
pub open spec fn squares<S: Single>(data: Seq<S>, n: int) -> S::Wide
    decreases n,
{
    if n <= 0 {
        zero()
    } else {
        let x = data[n - 1].widened();
        squares(data, n - 1).plus(x.times(x))
    }
}

/// The length of a vector.
pub open spec fn norm<S: Single>(data: Seq<S>) -> S::Wide {
    squares(data, data.len() as int).root()
}

/// By how much the change of a layer is scaled: by the learning rate times the
/// length of the parameter over that of the change, or not at all where one of
/// the two is zero.
pub open spec fn trust_ratio<S: Single>(lr: S, norm_x: S::Wide, norm_t: S::Wide) -> S {
    if norm_x.same(zero()) || norm_t.same(zero()) {
        one()
    } else {
        S::rounded(lr.widened().times(norm_x).over(norm_t))
    }
}

/// Whether all moments of a slot are finite.
pub open spec fn moments_are_finite<S: Real>(slot: SlotModel<Cell2<S>>) -> bool {
    forall|k: int|
        0 <= k < slot.cells.len() ==> (#[trigger] slot.cells[k]).0.finite()
            && slot.cells[k].1.finite()
}

/// The first position from `k` on with a moment that is not finite.
pub open spec fn bad_moment<S: Real>(cells: Seq<Cell2<S>>, k: int) -> int
    decreases cells.len() - k,
{
    if k >= cells.len() || !(cells[k].0.finite() && cells[k].1.finite()) {
        k
    } else {
        bad_moment(cells, k + 1)
    }
}

/// What is said of the moments of an element that are not both finite.
pub open spec fn moment_fault<S: Real>(cells: Seq<Cell2<S>>, k: int) -> Seq<char> {
    "non-finite second moment estimate (m="@ + cells[k].0.shown() + ", v="@ + cells[k].1.shown()
        + ") at element "@ + numeral(k as nat)
        + "; refusing to commit state that would become unrecoverable (see module doc \"非有限 norm の扱い\")"@
}

/// What is said of norms that are not both finite.
pub open spec fn norm_fault<W: Real>(norm_x: W, norm_t: W) -> Seq<char> {
    "non-finite parameter or update norm (norm_x="@ + norm_x.shown() + ", norm_t="@
        + norm_t.shown() + "); trust ratio cannot be computed"@
}

/// What is said of norms whose trust ratio is not finite.
pub open spec fn ratio_fault<W: Real>(norm_x: W, norm_t: W) -> Seq<char> {
    "trust ratio is non-finite (norm_x="@ + norm_x.shown() + ", norm_t="@ + norm_t.shown() + ")"@
}

/// The error of a step in which layer `i` is at fault.
pub open spec fn layer_refused(i: int, fault: Seq<char>) -> ErrorModel {
    ErrorModel::InvalidArgument("Lamb::step: slot "@ + numeral(i as nat) + ": "@ + fault)
}

/// The parameter of a layer after the step, or what is wrong with the layer.
pub open spec fn scaled_layer<S: Single>(
    lr: S,
    param: TensorModel<S>,
    change: TensorModel<S>,
    slot: SlotModel<Cell2<S>>,
) -> Result<TensorModel<S>, Seq<char>> {
    let norm_x = norm(param.data);
    let norm_t = norm(change.data);
    let ratio = trust_ratio(lr, norm_x, norm_t);
    if !moments_are_finite(slot) {
        Err(moment_fault(slot.cells, bad_moment(slot.cells, 0)))
    } else if !(norm_x.finite() && norm_t.finite()) {
        Err(norm_fault(norm_x, norm_t))
    } else if !ratio.finite() {
        Err(ratio_fault(norm_x, norm_t))
    } else {
        Ok(
            TensorModel {
                shape: param.shape,
                data: Seq::new(
                    param.data.len(),
                    |k: int| ratio.negated().fused(change.data[k], param.data[k]),
                ),
            },
        )
    }
}

/// The parameters of the layers from `i` on after the step, or why the first layer
/// that is refused is refused.
pub open spec fn scaled_layers<S: Single>(
    hparams: Seq<SlotHparams<S>>,
    pairs: Seq<Pair<S>>,
    changes: Seq<TensorModel<S>>,
    slots: Seq<SlotModel<Cell2<S>>>,
    n: int,
) -> Result<Seq<TensorModel<S>>, ErrorModel>
    decreases n,
{
    if n <= 0 {
        Ok(Seq::empty())
    } else {
        match scaled_layers(hparams, pairs, changes, slots, n - 1) {
            Err(e) => Err(e),
            Ok(params) => match scaled_layer(
                hparams[n - 1].lr,
                pairs[n - 1].param,
                changes[n - 1],
                slots[n - 1],
            ) {
                Err(fault) => Err(layer_refused(n - 1, fault)),
                Ok(param) => Ok(params.push(param)),
            },
        }
    }
}

/// The error of a step whose parameters do not have the shapes of the slots,
/// looking from position `i` on.
pub open spec fn param_error<S, C>(
    slots: Seq<SlotModel<C>>,
    pairs: Seq<Pair<S>>,
    i: int,
) -> Option<ErrorModel>
    decreases pairs.len() - i,
{
    if i >= pairs.len() {
        None
    } else if pairs[i].param.shape != slots[i].shape {
        Some(ErrorModel::ShapeMismatch { lhs: pairs[i].param.shape, rhs: slots[i].shape })
    } else {
        param_error(slots, pairs, i + 1)
    }
}

/// Why a step is refused for the shapes it is given, if it is. All gradients are
/// looked at before the slots are.
pub open spec fn lamb_step_error<S, C>(slots: Seq<SlotModel<C>>, pairs: Seq<Pair<S>>) -> Option<
    ErrorModel,
> {
    if gradient_error(pairs, 0) is Some {
        gradient_error(pairs, 0)
    } else if slots.len() == 0 {
        None
    } else if pairs.len() != slots.len() {
        Some(slot_count_changed("Lamb", "m/v", slots.len(), pairs.len()))
    } else {
        param_error(slots, pairs, 0)
    }
}

proof fn no_param_error<S, C>(slots: Seq<SlotModel<C>>, pairs: Seq<Pair<S>>, i: int)
    requires
        param_error(slots, pairs, i) is None,
        0 <= i,
    ensures
        forall|k: int|
            i <= k < pairs.len() ==> (#[trigger] pairs[k]).param.shape == slots[k].shape,
    decreases pairs.len() - i,
{
    if i < pairs.len() {
        no_param_error(slots, pairs, i + 1);
    }
}

proof fn accepted_step_is_lamb_aligned<S, C>(
    slots: Seq<SlotModel<C>>,
    pairs: Seq<Pair<S>>,
    blank: C,
)
    requires
        lamb_step_error(slots, pairs) is None,
    ensures
        aligned(pairs, started(slots, pairs, blank)),
{
    accepted_step_is_aligned("Lamb", "m/v", Seq::<SlotModel<C>>::empty(), pairs, blank);
    if slots.len() > 0 {
        no_param_error(slots, pairs, 0);
        assert(started(Seq::<SlotModel<C>>::empty(), pairs, blank) == fresh_slots(pairs, blank));
        assert forall|i: int| 0 <= i < pairs.len() implies (#[trigger] pairs[i]).grad.shape
            == pairs[i].param.shape by {
            assert(aligned(pairs, fresh_slots(pairs, blank)));
        }
    }
}

fn check_lamb_step<S, C>(slots: &Vec<Slot<C>>, pairs: &[(&Tensor<S>, &Tensor<S>)]) -> (r: Result<
    (),
    AutodiffError,
>)
    ensures
        match r {
            Ok(_) => lamb_step_error(slot_models(slots@), inputs(pairs@)) is None,
            Err(e) => lamb_step_error(slot_models(slots@), inputs(pairs@)) == Some(e@),
        },
{
    match check_gradients(pairs) {
        Err(e) => {
            return Err(e);
        },
        Ok(_) => {},
    }
    if slots.len() == 0 {
        return Ok(());
    }
    if pairs.len() != slots.len() {
        return Err(refuse_slot_count("Lamb", "m/v", slots.len(), pairs.len()));
    }
    let ghost all = slot_models(slots@);
    let mut i: usize = 0;
    while i < pairs.len()
        invariant
            all == slot_models(slots@),
            gradient_error(inputs(pairs@), 0) is None,
            slots@.len() > 0,
            pairs@.len() == slots@.len(),
            i <= pairs@.len(),
            param_error(all, inputs(pairs@), 0) == param_error(all, inputs(pairs@), i as int),
        decreases pairs@.len() - i,
    {
        let param = pairs[i].0;
        assert(inputs(pairs@)[i as int].param == param@);
        assert(all[i as int] == slots@[i as int]@);
        if !same_shape(param.shape(), slots[i].shape()) {
            return Err(shape_mismatch(param.shape(), slots[i].shape()));
        }
        i = i + 1;
    }
    Ok(())
}

fn vector_norm<S: Single>(data: &[S]) -> (r: S::Wide)
    ensures
        r == norm(data@),
{
    let mut sum: S::Wide = <S::Wide as Real>::literal(0, 0);
    let mut i: usize = 0;
    while i < data.len()
        invariant
            i <= data@.len(),
            sum == squares(data@, i as int),
        decreases data@.len() - i,
    {
        let x: S::Wide = data[i].widen();
        sum = sum.add(x.mul(x));
        i = i + 1;
    }
    sum.sqrt()
}

fn find_bad_moment<S: Real>(slot: &Slot<Cell2<S>>) -> (r: Option<usize>)
    ensures
        match r {
            None => moments_are_finite(slot@),
            Some(k) => {
                &&& !moments_are_finite(slot@)
                &&& k < slot@.cells.len()
                &&& k == bad_moment(slot@.cells, 0)
            },
        },
{
    let cells: &[Cell2<S>] = slot.cells();
    let mut k: usize = 0;
    while k < cells.len()
        invariant
            k <= cells@.len(),
            slot@.cells == cells@,
            bad_moment(cells@, 0) == bad_moment(cells@, k as int),
            forall|i: int|
                0 <= i < k ==> (#[trigger] cells@[i]).0.finite() && cells@[i].1.finite(),
        decreases cells@.len() - k,
    {
        if !(cells[k].0.is_finite() && cells[k].1.is_finite()) {
            return Some(k);
        }
        k = k + 1;
    }
    None
}

fn tell_moment_fault<S: Real>(cells: &[Cell2<S>], k: usize) -> (r: String)
    requires
        k < cells@.len(),
    ensures
        r@ == moment_fault(cells@, k as int),
{
    let text: String = joined("non-finite second moment estimate (m=", cells[k].0.show().as_str());
    let text: String = followed_by(text, ", v=");
    let text: String = followed_by(followed_by(text, cells[k].1.show().as_str()), ") at element ");
    followed_by(
        followed_by_count(text, k),
        "; refusing to commit state that would become unrecoverable (see module doc \"非有限 norm の扱い\")",
    )
}

fn tell_norm_fault<W: Real>(norm_x: W, norm_t: W) -> (r: String)
    ensures
        r@ == norm_fault(norm_x, norm_t),
{
    let text: String = joined(
        "non-finite parameter or update norm (norm_x=",
        norm_x.show().as_str(),
    );
    let text: String = followed_by(followed_by(text, ", norm_t="), norm_t.show().as_str());
    followed_by(text, "); trust ratio cannot be computed")
}

fn tell_ratio_fault<W: Real>(norm_x: W, norm_t: W) -> (r: String)
    ensures
        r@ == ratio_fault(norm_x, norm_t),
{
    let text: String = joined("trust ratio is non-finite (norm_x=", norm_x.show().as_str());
    let text: String = followed_by(followed_by(text, ", norm_t="), norm_t.show().as_str());
    followed_by(text, ")")
}

fn refuse_layer(i: usize, fault: &str) -> (r: AutodiffError)
    ensures
        r@ == layer_refused(i as int, fault@),
{
    let text: String = followed_by(followed_by_count("Lamb::step: slot ".to_owned(), i), ": ");
    AutodiffError::InvalidArgument(followed_by(text, fault))
}

fn scale_layer<S: Single>(
    lr: S,
    param: &Tensor<S>,
    change: &Tensor<S>,
    slot: &Slot<Cell2<S>>,
) -> (r: Result<Tensor<S>, String>)
    requires
        change@.data.len() == param@.data.len(),
    ensures
        match r {
            Ok(moved) => scaled_layer(lr, param@, change@, slot@) == Ok::<
                TensorModel<S>,
                Seq<char>,
            >(moved@),
            Err(e) => scaled_layer(lr, param@, change@, slot@) == Err::<TensorModel<S>, _>(e@),
        },
{
    match find_bad_moment(slot) {
        Some(k) => {
            return Err(tell_moment_fault(slot.cells(), k));
        },
        None => {},
    }
    let p: &[S] = param.as_slice();
    let t: &[S] = change.as_slice();
    let norm_x: S::Wide = vector_norm(p);
    let norm_t: S::Wide = vector_norm(t);
    if !(norm_x.is_finite() && norm_t.is_finite()) {
        return Err(tell_norm_fault(norm_x, norm_t));
    }
    let nothing: S::Wide = <S::Wide as Real>::literal(0, 0);
    let ratio: S = if norm_x.eq(nothing) || norm_t.eq(nothing) {
        S::literal(1, 0)
    } else {
        S::round(lr.widen().mul(norm_x).div(norm_t))
    };
    if !ratio.is_finite() {
        return Err(tell_ratio_fault(norm_x, norm_t));
    }
    let mut data: Vec<S> = Vec::new();
    let mut k: usize = 0;
    while k < p.len()
        invariant
            p@.len() == t@.len(),
            k <= p@.len(),
            data@.len() == k,
            forall|i: int| 0 <= i < k ==> #[trigger] data@[i] == ratio.negated().fused(t@[i], p@[i]),
        decreases p@.len() - k,
    {
        data.push(ratio.neg().mul_add(t[k], p[k]));
        k = k + 1;
    }
    let moved: Tensor<S> = with_shape(param.shape(), data);
    assert(moved@ =~= scaled_layer(lr, param@, change@, slot@)->Ok_0);
    Ok(moved)
}

fn scale_layers<S: Single>(
    hparams: &Vec<SlotHparams<S>>,
    pairs: &[(&Tensor<S>, &Tensor<S>)],
    changes: &Vec<Tensor<S>>,
    slots: &Vec<Slot<Cell2<S>>>,
) -> (r: Result<Vec<Tensor<S>>, AutodiffError>)
    requires
        hparams@.len() == pairs@.len(),
        changes@.len() == pairs@.len(),
        slots@.len() == pairs@.len(),
        forall|i: int|
            0 <= i < pairs@.len() ==> (#[trigger] changes@[i])@.data.len() == pairs@[i].0@.data.len(),
    ensures
        match r {
            Ok(params) => scaled_layers(
                hparams@,
                inputs(pairs@),
                models(changes@),
                slot_models(slots@),
                pairs@.len() as int,
            ) == Ok::<Seq<TensorModel<S>>, ErrorModel>(models(params@)),
            Err(e) => scaled_layers(
                hparams@,
                inputs(pairs@),
                models(changes@),
                slot_models(slots@),
                pairs@.len() as int,
            ) == Err::<Seq<TensorModel<S>>, _>(e@),
        },
{
    let ghost all = inputs(pairs@);
    let ghost changed = models(changes@);
    let ghost next = slot_models(slots@);
    let mut out: Vec<Tensor<S>> = Vec::new();
    let mut i: usize = 0;
    assert(models(out@) =~= Seq::empty());
    while i < pairs.len()
        invariant
            all == inputs(pairs@),
            changed == models(changes@),
            next == slot_models(slots@),
            hparams@.len() == pairs@.len(),
            changes@.len() == pairs@.len(),
            slots@.len() == pairs@.len(),
            forall|k: int|
                0 <= k < pairs@.len() ==> (#[trigger] changes@[k])@.data.len()
                    == pairs@[k].0@.data.len(),
            i <= pairs@.len(),
            scaled_layers(hparams@, all, changed, next, i as int) == Ok::<
                Seq<TensorModel<S>>,
                ErrorModel,
            >(models(out@)),
        decreases pairs@.len() - i,
    {
        assert(all[i as int].param == pairs@[i as int].0@);
        assert(changed[i as int] == changes@[i as int]@);
        assert(next[i as int] == slots@[i as int]@);
        match scale_layer(hparams[i].lr, pairs[i].0, &changes[i], &slots[i]) {
            Err(fault) => {
                proof {
                    refusal_persists(hparams@, all, changed, next, i + 1, pairs@.len() as int);
                }
                return Err(refuse_layer(i, fault.as_str()));
            },
            Ok(param) => {
                let ghost before = out@;
                out.push(param);
                assert(models(out@) =~= models(before).push(param@));
            },
        }
        i = i + 1;
    }
    Ok(out)
}

/// A layer that is refused refuses the step.
proof fn refusal_persists<S: Single>(
    hparams: Seq<SlotHparams<S>>,
    pairs: Seq<Pair<S>>,
    changes: Seq<TensorModel<S>>,
    slots: Seq<SlotModel<Cell2<S>>>,
    m: int,
    n: int,
)
    requires
        0 <= m <= n,
        scaled_layers(hparams, pairs, changes, slots, m) is Err,
    ensures
        scaled_layers(hparams, pairs, changes, slots, n) == scaled_layers(
            hparams,
            pairs,
            changes,
            slots,
            m,
        ),
    decreases n - m,
{
    if m < n {
        refusal_persists(hparams, pairs, changes, slots, m, n - 1);
    }
}

/// A [`Lamb`] optimizer as a mathematical value.
#[verifier::ext_equal]
pub struct LambModel<S: Single> {
    pub config: LambConfig<S>,
    pub step_count: u64,
    pub beta1_pow_t: S::Wide,
    pub beta2_pow_t: S::Wide,
    pub slots: Seq<SlotModel<Cell2<S>>>,
}

impl<S: Single> LambModel<S> {
    /// The rule of a slot in a step after which the decay rates have been
    /// multiplied up to the given powers.
    pub open spec fn rule(
        config: LambConfig<S>,
        beta1_pow_t: S::Wide,
        beta2_pow_t: S::Wide,
        hparams: SlotHparams<S>,
    ) -> LambRule<S> {
        LambRule {
            lr: hparams.lr,
            beta1: config.beta1,
            beta2: config.beta2,
            eps: config.eps,
            weight_decay: hparams.weight_decay,
            step_size: S::rounded(
                hparams.lr.widened().over(one::<S::Wide>().minus(beta1_pow_t)),
            ),
            bias_correction2_sqrt: S::rounded(one::<S::Wide>().minus(beta2_pow_t).root()),
        }
    }

    /// One step.
    pub open spec fn stepped(
        self,
        pairs: Seq<Pair<S>>,
        hparams: Seq<SlotHparams<S>>,
    ) -> Result<(Seq<TensorModel<S>>, LambModel<S>), ErrorModel> {
        match lamb_step_error(self.slots, pairs) {
            Some(e) => Err(e),
            None => match counted(self.step_count) {
                Err(e) => Err(e),
                Ok(step_count) => {
                    let beta1_pow_t = self.beta1_pow_t.times(self.config.beta1.widened());
                    let beta2_pow_t = self.beta2_pow_t.times(self.config.beta2.widened());
                    let rules = Seq::new(
                        pairs.len(),
                        |i: int| Self::rule(self.config, beta1_pow_t, beta2_pow_t, hparams[i]),
                    );
                    let slots = started(self.slots, pairs, Cell2(zero::<S>(), zero::<S>()));
                    let changes = moved_params(rules, pairs, slots);
                    let next = next_slots(rules, pairs, slots);
                    match scaled_layers(hparams, pairs, changes, next, pairs.len() as int) {
                        Err(e) => Err(e),
                        Ok(params) => Ok(
                            (
                                params,
                                LambModel {
                                    config: self.config,
                                    step_count,
                                    beta1_pow_t,
                                    beta2_pow_t,
                                    slots: next,
                                },
                            ),
                        ),
                    }
                },
            },
        }
    }
}

/// The powers of the decay rates start at one: the first step multiplies them up to the
/// decay rates themselves. Every step counts.
pub proof fn lamb_powers_start_with_the_decay_rates<S: Single>(
    optimizer: LambModel<S>,
    pairs: Seq<Pair<S>>,
    hparams: Seq<SlotHparams<S>>,
)
    requires
        optimizer.stepped(pairs, hparams) is Ok,
    ensures
        optimizer.stepped(pairs, hparams) matches Ok((_, next)) && {
            &&& next.step_count == optimizer.step_count + 1
            &&& next.config == optimizer.config
            &&& optimizer.beta1_pow_t == one::<S::Wide>() ==> next.beta1_pow_t
                == optimizer.config.beta1.widened()
            &&& optimizer.beta2_pow_t == one::<S::Wide>() ==> next.beta2_pow_t
                == optimizer.config.beta2.widened()
            &&& optimizer.config.beta1 == one::<S>() ==> next.beta1_pow_t == optimizer.beta1_pow_t
            &&& optimizer.config.beta2 == one::<S>() ==> next.beta2_pow_t == optimizer.beta2_pow_t
        },
{
    let (a, b) = (optimizer.config.beta1.widened(), optimizer.config.beta2.widened());
    a.neutral(one());
    b.neutral(one());
    one::<S::Wide>().neutral(a);
    one::<S::Wide>().neutral(b);
    optimizer.beta1_pow_t.neutral(one());
    optimizer.beta2_pow_t.neutral(one());
    one::<S>().precisions(one());
}

/// The step size is at least the learning rate, and is it once the first decay rate has
/// died away; until then it falls from step to step, as the power of the decay rate
/// does. The correction of the second moment lies from zero to one, is one in the long
/// run, and rises until then.
pub proof fn lamb_corrections_die_away<S: Single>(
    config: LambConfig<S>,
    hparams: SlotHparams<S>,
    beta1_pow_t: S::Wide,
    beta2_pow_t: S::Wide,
    later1: S::Wide,
    later2: S::Wide,
)
    requires
        non_negative(hparams.lr),
        fraction(beta1_pow_t),
        fraction(beta2_pow_t),
        fraction(later1),
        fraction(later2),
        later1.at_most(beta1_pow_t),
        later2.at_most(beta2_pow_t),
    ensures
        ({
            let rule = LambModel::rule(config, beta1_pow_t, beta2_pow_t, hparams);
            let later = LambModel::rule(config, later1, later2, hparams);
            &&& hparams.lr.at_most(rule.step_size)
            &&& beta1_pow_t == zero::<S::Wide>() ==> rule.step_size == hparams.lr
            &&& later.step_size.at_most(rule.step_size)
            &&& in_unit_range(rule.bias_correction2_sqrt)
            &&& beta2_pow_t == zero::<S::Wide>() ==> rule.bias_correction2_sqrt == one::<S>()
            &&& rule.bias_correction2_sqrt.at_most(later.bias_correction2_sqrt)
            &&& one::<S::Wide>().minus(beta2_pow_t) == <S::Wide as Real>::decimal(25, -2)
                ==> rule.bias_correction2_sqrt == S::rounded(<S::Wide as Real>::decimal(5, -1))
            &&& rule.beta1 == config.beta1 && rule.beta2 == config.beta2 && rule.eps == config.eps
            &&& rule.weight_decay == hparams.weight_decay && rule.lr == hparams.lr
        }),
{
    corrected_rates(hparams.lr, beta1_pow_t, later1);
    unit_range_is_closed(beta2_pow_t, one());
    unit_range_is_closed(later2, one());
    root_corrections::<S>(beta2_pow_t, later2);
}

/// The LAMB optimizer.
pub struct Lamb<S: Single> {
    config: LambConfig<S>,
    step_count: u64,
    beta1_pow_t: S::Wide,
    beta2_pow_t: S::Wide,
    slots: Vec<Slot<Cell2<S>>>,
}

impl<S: Single> View for Lamb<S> {
    type V = LambModel<S>;

    closed spec fn view(&self) -> LambModel<S> {
        LambModel {
            config: self.config,
            step_count: self.step_count,
            beta1_pow_t: self.beta1_pow_t,
            beta2_pow_t: self.beta2_pow_t,
            slots: slot_models(self.slots@),
        }
    }
}

impl<S: Single> Lamb<S> {
    #[verifier::type_invariant]
    spec fn wf(&self) -> bool {
        &&& fraction(self.config.beta1)
        &&& fraction(self.config.beta2)
        &&& in_unit_range(self.beta1_pow_t)
        &&& in_unit_range(self.beta2_pow_t)
    }

    /// An optimizer that has taken no step.
    pub fn new(config: LambConfig<S>) -> (r: Result<Lamb<S>, AutodiffError>)
        ensures
            match r {
                Ok(optimizer) => {
                    &&& lamb_config_error(config) is None
                    &&& optimizer@ == (LambModel {
                        config,
                        step_count: 0,
                        beta1_pow_t: one(),
                        beta2_pow_t: one(),
                        slots: Seq::empty(),
                    })
                },
                Err(e) => lamb_config_error(config) == Some(e@),
            },
    {
        if !is_non_negative(config.lr) {
            return Err(tell("Lamb::new: lr must be finite and >= 0.0, got ", config.lr));
        }
        if !is_fraction(config.beta1) {
            return Err(tell("Lamb::new: beta1 must be in [0.0, 1.0), got ", config.beta1));
        }
        if !is_fraction(config.beta2) {
            return Err(tell("Lamb::new: beta2 must be in [0.0, 1.0), got ", config.beta2));
        }
        if !is_positive(config.eps) {
            return Err(tell("Lamb::new: eps must be finite and > 0.0, got ", config.eps));
        }
        if !is_non_negative(config.weight_decay) {
            return Err(
                tell(
                    "Lamb::new: weight_decay must be finite and >= 0.0, got ",
                    config.weight_decay,
                ),
            );
        }
        proof {
            unit_range_is_closed(one::<S::Wide>(), one());
        }
        let r = Lamb {
            config,
            step_count: 0,
            beta1_pow_t: <S::Wide as Real>::literal(1, 0),
            beta2_pow_t: <S::Wide as Real>::literal(1, 0),
            slots: Vec::new(),
        };
        assert(r@.slots =~= Seq::empty());
        Ok(r)
    }

    pub fn config(&self) -> (r: &LambConfig<S>)
        ensures
            *r == self@.config,
    {
        &self.config
    }

    /// The number of steps taken.
    pub fn step_count(&self) -> (r: u64)
        ensures
            r == self@.step_count,
    {
        self.step_count
    }

    /// Replaces the learning rate and leaves everything else as it is.
    pub fn set_lr(&mut self, new_lr: S) -> (r: Result<(), AutodiffError>)
        ensures
            match r {
                Ok(_) => {
                    &&& non_negative(new_lr)
                    &&& final(self)@ == (LambModel {
                        config: LambConfig { lr: new_lr, ..old(self)@.config },
                        ..old(self)@
                    })
                },
                Err(e) => {
                    &&& !non_negative(new_lr)
                    &&& e@ == told("Lamb::set_lr: lr must be finite and >= 0.0, got ", new_lr)
                    &&& final(self)@ == old(self)@
                },
            },
    {
        if !is_non_negative(new_lr) {
            return Err(tell("Lamb::set_lr: lr must be finite and >= 0.0, got ", new_lr));
        }
        proof {
            use_type_invariant(&*self);
        }
        self.config.lr = new_lr;
        Ok(())
    }

    /// One step with the configured learning rate and weight decay. Returns the
    /// parameters after the step, in the order in which they were given.
    pub fn step(&mut self, params_and_grads: &[(&Tensor<S>, &Tensor<S>)]) -> (r: Result<
        Vec<Tensor<S>>,
        AutodiffError,
    >)
        ensures
            answers(
                r,
                old(self)@.stepped(
                    inputs(params_and_grads@),
                    Seq::new(
                        params_and_grads@.len(),
                        |i: int|
                            SlotHparams {
                                lr: old(self)@.config.lr,
                                weight_decay: old(self)@.config.weight_decay,
                            },
                    ),
                ),
                old(self)@,
                final(self)@,
            ),
    {
        let hparams: Vec<SlotHparams<S>> = repeated(
            SlotHparams { lr: self.config.lr, weight_decay: self.config.weight_decay },
            params_and_grads.len(),
        );
        self.step_with_slot_hparams(params_and_grads, &hparams)
    }

    /// One step with a learning rate and a weight decay for each slot.
    pub fn step_with_slot_hparams(
        &mut self,
        params_and_grads: &[(&Tensor<S>, &Tensor<S>)],
        hparams: &Vec<SlotHparams<S>>,
    ) -> (r: Result<Vec<Tensor<S>>, AutodiffError>)
        requires
            hparams@.len() == params_and_grads@.len(),
        ensures
            answers(
                r,
                old(self)@.stepped(inputs(params_and_grads@), hparams@),
                old(self)@,
                final(self)@,
            ),
    {
        match check_lamb_step(&self.slots, params_and_grads) {
            Err(e) => {
                return Err(e);
            },
            Ok(_) => {},
        }
        let step_count: u64 = match count_step(self.step_count) {
            Err(e) => {
                return Err(e);
            },
            Ok(step_count) => step_count,
        };
        let unit: S::Wide = <S::Wide as Real>::literal(1, 0);
        let beta1_pow_t: S::Wide = self.beta1_pow_t.mul(self.config.beta1.widen());
        let beta2_pow_t: S::Wide = self.beta2_pow_t.mul(self.config.beta2.widen());
        let bias_correction1: S::Wide = unit.sub(beta1_pow_t);
        let bias_correction2_sqrt: S = S::round(unit.sub(beta2_pow_t).sqrt());
        let mut rules: Vec<LambRule<S>> = Vec::new();
        let mut i: usize = 0;
        while i < hparams.len()
            invariant
                i <= hparams@.len(),
                rules@.len() == i,
                bias_correction1 == one::<S::Wide>().minus(beta1_pow_t),
                bias_correction2_sqrt == S::rounded(one::<S::Wide>().minus(beta2_pow_t).root()),
                forall|k: int|
                    0 <= k < i ==> #[trigger] rules@[k] == LambModel::rule(
                        self.config,
                        beta1_pow_t,
                        beta2_pow_t,
                        hparams@[k],
                    ),
            decreases hparams@.len() - i,
        {
            rules.push(
                LambRule {
                    lr: hparams[i].lr,
                    beta1: self.config.beta1,
                    beta2: self.config.beta2,
                    eps: self.config.eps,
                    weight_decay: hparams[i].weight_decay,
                    step_size: S::round(hparams[i].lr.widen().div(bias_correction1)),
                    bias_correction2_sqrt,
                },
            );
            i = i + 1;
        }
        let blank = Cell2(S::literal(0, 0), S::literal(0, 0));
        proof {
            accepted_step_is_lamb_aligned(
                slot_models(self.slots@),
                inputs(params_and_grads@),
                blank,
            );
            assert(rules@ =~= Seq::new(
                inputs(params_and_grads@).len(),
                |k: int| LambModel::rule(self.config, beta1_pow_t, beta2_pow_t, hparams@[k]),
            ));
        }
        let slots: Vec<Slot<Cell2<S>>> = start(&self.slots, params_and_grads, blank);
        let (changes, next) = advance(&rules, params_and_grads, &slots);
        assert(models(changes@).len() == changes@.len());
        assert(slot_models(next@).len() == next@.len());
        assert forall|k: int| 0 <= k < params_and_grads@.len() implies (
        #[trigger] changes@[k])@.data.len() == params_and_grads@[k].0@.data.len() by {
            assert(models(changes@)[k] == changes@[k]@);
            assert(inputs(params_and_grads@)[k].param == params_and_grads@[k].0@);
        }
        let params: Vec<Tensor<S>> = match scale_layers(
            hparams,
            params_and_grads,
            &changes,
            &next,
        ) {
            Err(e) => {
                return Err(e);
            },
            Ok(params) => params,
        };
        proof {
            use_type_invariant(&*self);
            widened_fraction_in_unit_range(self.config.beta1);
            unit_range_is_closed(self.beta1_pow_t, self.config.beta1.widened());
            widened_fraction_in_unit_range(self.config.beta2);
            unit_range_is_closed(self.beta2_pow_t, self.config.beta2.widened());
        }
        self.step_count = step_count;
        self.beta1_pow_t = beta1_pow_t;
        self.beta2_pow_t = beta2_pow_t;
        self.slots = next;
        Ok(params)
    }
}

impl<S: Single> SlotwiseStep<S> for Lamb<S> {
    open spec fn name() -> Seq<char> {
        "Lamb"@
    }

    open spec fn default_hparams(state: LambModel<S>) -> SlotHparams<S> {
        SlotHparams { lr: state.config.lr, weight_decay: state.config.weight_decay }
    }

    open spec fn stepped(
        state: LambModel<S>,
        pairs: Seq<Pair<S>>,
        hparams: Seq<SlotHparams<S>>,
    ) -> Result<(Seq<TensorModel<S>>, LambModel<S>), ErrorModel> {
        state.stepped(pairs, hparams)
    }
}

impl<S: Single> ParamGroupStep<S> for Lamb<S> {
    fn step_with_groups(
        &mut self,
        params: &[&Tensor<S>],
        grads: &[&Tensor<S>],
        groups: &[ParamGroup<S>],
    ) -> (r: Result<Vec<Tensor<S>>, AutodiffError>) {
        match check_len_matches("Lamb", params, grads) {
            Err(e) => {
                return Err(e);
            },
            Ok(_) => {},
        }
        let hparams: Vec<SlotHparams<S>> = match resolve_slot_hparams(
            groups,
            params.len(),
            self.config.lr,
            self.config.weight_decay,
            "Lamb",
        ) {
            Err(e) => {
                return Err(e);
            },
            Ok(hparams) => hparams,
        };
        let pairs: Vec<(&Tensor<S>, &Tensor<S>)> = zip_params_grads(params, grads);
        self.step_with_slot_hparams(pairs.as_slice(), &hparams)
    }
}

impl<S: Single> OptimizerStateDict<S> for Lamb<S> {
    open spec fn layout() -> Layout {
        Layout {
            kind: "lamb"@,
            buffers: seq!["m"@, "v"@],
            has_beta1: true,
            has_beta2: true,
            has_mu_product: false,
        }
    }

    open spec fn accumulated(&self) -> StateModel<S> {
        StateModel {
            step_count: self@.step_count,
            beta1_pow_t: Some(self@.beta1_pow_t),
            beta2_pow_t: Some(self@.beta2_pow_t),
            mu_product: None,
            slots: slots_data(self@.slots),
        }
    }

    open spec fn same_settings(&self, other: &Self) -> bool {
        self@.config == other@.config
    }

    fn state_dict(&self) -> (r: Result<StateDict<S>, AutodiffError>) {
        let names: [&str; 2] = ["m", "v"];
        proof {
            use_type_invariant(self);
            reveal_strlit("m");
            reveal_strlit("v");
            assert("m"@[0] != "v"@[0]);
            assert(names@.map_values(|name: &str| name@) =~= Self::layout().buffers);
        }
        let state = DecodedState {
            step_count: self.step_count,
            beta1_pow_t: Some(self.beta1_pow_t),
            beta2_pow_t: Some(self.beta2_pow_t),
            mu_product: None,
            slots: export_slots(&self.slots),
        };
        assert(state@ =~= self.accumulated());
        Ok(encode_state_dict("lamb", &names, &state))
    }

    fn load_state_dict(&mut self, state: StateDict<S>) -> (r: Result<(), AutodiffError>) {
        let names: [&str; 2] = ["m", "v"];
        assert(names@.map_values(|name: &str| name@) =~= Self::layout().buffers);
        match decode_state_dict("lamb", &state, &names, true, true, false) {
            Err(e) => Err(e),
            Ok(decoded) => {
                proof {
                    use_type_invariant(&*self);
                    decoded_slots_fit(state@, Self::layout(), decoded);
                }
                self.step_count = decoded.step_count;
                match decoded.beta1_pow_t {
                    Some(value) => {
                        self.beta1_pow_t = value;
                    },
                    None => {},
                }
                match decoded.beta2_pow_t {
                    Some(value) => {
                        self.beta2_pow_t = value;
                    },
                    None => {},
                }
                self.slots = import_slots(&decoded.slots);
                assert(self.accumulated() =~= decoded@);
                Ok(())
            },
        }
    }
}

/// An optimizer that takes over a saved state is in all respects like the one that
/// saved it, if both have the same settings. The state is accepted unless the
/// counter of steps is at its end, where no further step could be counted.
pub proof fn lamb_resumes_from_its_saved_state<S: Single>(
    saved: Lamb<S>,
    dict: StateDict<S>,
    resumed: Lamb<S>,
)
    requires
        saves(dict@, Lamb::<S>::layout(), saved.accumulated()),
        saved@.step_count <= largest_step_count(false),
        resumed.same_settings(&saved),
    ensures
        restored(dict@, Lamb::<S>::layout()) == Ok::<_, ErrorModel>(saved.accumulated()),
        restored(dict@, Lamb::<S>::layout()) == Ok::<_, ErrorModel>(resumed.accumulated())
            ==> resumed@ == saved@,
{
    reveal_strlit("m");
    reveal_strlit("v");
    assert("m"@[0] != "v"@[0]);
    dict.entries_are_countable();
    saved_state_is_restored(dict@, Lamb::<S>::layout(), saved.accumulated());
    if resumed.accumulated() == saved.accumulated() {
        buffers_determine_slots::<S, _>(resumed@.slots, saved@.slots);
    }
}

proof fn accepted_step_is_accepted_by_all<S, C>(
    slots: Seq<SlotModel<C>>,
    pairs: Seq<Pair<S>>,
    i: int,
)
    requires
        0 <= i,
        forall|k: int|
            0 <= k < pairs.len() ==> {
                &&& (#[trigger] pairs[k]).param.shape == slots[k].shape
                &&& pairs[k].grad.shape == pairs[k].param.shape
            },
    ensures
        pair_error(slots, pairs, i) is None,
    decreases pairs.len() - i,
{
    if i < pairs.len() {
        assert(pairs[i].param.shape == slots[i].shape);
        accepted_step_is_accepted_by_all(slots, pairs, i + 1);
    }
}

/// Layers of length zero are moved by the plain change.
proof fn layers_of_zeros_are_not_scaled<S: Single>(
    hparams: Seq<SlotHparams<S>>,
    pairs: Seq<Pair<S>>,
    changes: Seq<TensorModel<S>>,
    slots: Seq<SlotModel<Cell2<S>>>,
    n: int,
)
    requires
        0 <= n <= pairs.len(),
        forall|i: int|
            0 <= i < pairs.len() ==> norm((#[trigger] pairs[i]).param.data).same(zero()),
        scaled_layers(hparams, pairs, changes, slots, n) is Ok,
    ensures
        scaled_layers(hparams, pairs, changes, slots, n)->Ok_0 == Seq::new(
            n as nat,
            |i: int|
                TensorModel {
                    shape: pairs[i].param.shape,
                    data: Seq::new(
                        pairs[i].param.data.len(),
                        |k: int|
                            one::<S>().negated().fused(changes[i].data[k], pairs[i].param.data[k]),
                    ),
                },
        ),
    decreases n,
{
    if n > 0 {
        layers_of_zeros_are_not_scaled(hparams, pairs, changes, slots, n - 1);
        assert(norm(pairs[n - 1].param.data).same(zero()));
    }
}

/// A step without weight decay from parameters that are zero is a step of
/// [`AdamW`] without weight decay.
pub proof fn step_from_zero_is_a_step_of_adamw<S: Single>(
    lamb: LambModel<S>,
    adamw: AdamWModel<S>,
    pairs: Seq<Pair<S>>,
    hparams: Seq<SlotHparams<S>>,
)
    requires
        adamw.config.beta1 == lamb.config.beta1,
        adamw.config.beta2 == lamb.config.beta2,
        adamw.config.eps == lamb.config.eps,
        adamw.step_count == lamb.step_count,
        adamw.beta1_pow_t == lamb.beta1_pow_t,
        adamw.beta2_pow_t == lamb.beta2_pow_t,
        adamw.slots == lamb.slots,
        hparams.len() == pairs.len(),
        forall|i: int|
            0 <= i < hparams.len() ==> (#[trigger] hparams[i]).weight_decay == zero::<S>()
                && hparams[i].lr.finite(),
        forall|i: int|
            0 <= i < pairs.len() ==> norm((#[trigger] pairs[i]).param.data).same(zero()),
        lamb.stepped(pairs, hparams) is Ok,
    ensures
        adamw.stepped(pairs, hparams) matches Ok((params, next)) && {
            &&& params == lamb.stepped(pairs, hparams)->Ok_0.0
            &&& next.step_count == lamb.stepped(pairs, hparams)->Ok_0.1.step_count
            &&& next.beta1_pow_t == lamb.stepped(pairs, hparams)->Ok_0.1.beta1_pow_t
            &&& next.beta2_pow_t == lamb.stepped(pairs, hparams)->Ok_0.1.beta2_pow_t
            &&& next.slots == lamb.stepped(pairs, hparams)->Ok_0.1.slots
        },
{
    let blank = Cell2(zero::<S>(), zero::<S>());
    let beta1_pow_t = lamb.beta1_pow_t.times(lamb.config.beta1.widened());
    let beta2_pow_t = lamb.beta2_pow_t.times(lamb.config.beta2.widened());
    let slots = started(lamb.slots, pairs, blank);
    accepted_step_is_lamb_aligned(lamb.slots, pairs, blank);
    if lamb.slots.len() > 0 {
        accepted_step_is_accepted_by_all(lamb.slots, pairs, 0);
    }
    assert(step_error("AdamW", "m/v", adamw.slots, pairs) is None);
    let ours = Seq::new(
        pairs.len(),
        |i: int| LambModel::rule(lamb.config, beta1_pow_t, beta2_pow_t, hparams[i]),
    );
    let theirs = Seq::new(
        pairs.len(),
        |i: int| AdamWModel::rule(adamw.config, beta1_pow_t, beta2_pow_t, hparams[i]),
    );
    let changes = moved_params(ours, pairs, slots);
    let next = next_slots(ours, pairs, slots);
    layers_of_zeros_are_not_scaled(hparams, pairs, changes, next, pairs.len() as int);
    let scaled = scaled_layers(hparams, pairs, changes, next, pairs.len() as int)->Ok_0;
    assert forall|i: int| 0 <= i < pairs.len() implies scaled[i] == moved_param(
        theirs[i],
        pairs[i],
        slots[i],
    ) && next_slot(ours[i], pairs[i], slots[i]) == next_slot(theirs[i], pairs[i], slots[i]) by {
        assert(hparams[i].weight_decay == zero::<S>());
        hparams[i].lr.neutral(zero());
        assert forall|p: S, g: S, c: Cell2<S>| #[trigger]
            ours[i].next(p, g, c) == theirs[i].next(p, g, c) by {}
        assert forall|p: S, g: S, c: Cell2<S>|
            one::<S>().negated().fused(#[trigger] ours[i].moved(p, g, c), p) == theirs[i].moved(
                p,
                g,
                c,
            ) by {
            assert(ours[i].next(p, g, c) == theirs[i].next(p, g, c));
            p.neutral(ours[i].moved(p, g, c));
        }
        assert(scaled[i].data =~= moved_param(theirs[i], pairs[i], slots[i]).data);
        assert(next_slot(ours[i], pairs[i], slots[i]) =~= next_slot(
            theirs[i],
            pairs[i],
            slots[i],
        ));
    }
    assert(scaled =~= moved_params(theirs, pairs, slots));
    assert forall|i: int| 0 <= i < pairs.len() implies #[trigger] next[i] == next_slot(
        theirs[i],
        pairs[i],
        slots[i],
    ) by {
        assert(scaled[i] == moved_param(theirs[i], pairs[i], slots[i]));
    }
    assert(next =~= next_slots(theirs, pairs, slots));
}

proof fn layers_are_scaled_one_by_one<S: Single>(
    hparams: Seq<SlotHparams<S>>,
    pairs: Seq<Pair<S>>,
    changes: Seq<TensorModel<S>>,
    slots: Seq<SlotModel<Cell2<S>>>,
    n: int,
)
    requires
        0 <= n,
        scaled_layers(hparams, pairs, changes, slots, n) is Ok,
    ensures
        scaled_layers(hparams, pairs, changes, slots, n)->Ok_0.len() == n,
        forall|i: int|
            0 <= i < n ==> Ok::<_, Seq<char>>(
                #[trigger] scaled_layers(hparams, pairs, changes, slots, n)->Ok_0[i],
            ) == scaled_layer(hparams[i].lr, pairs[i].param, changes[i], slots[i]),
    decreases n,
{
    if n > 0 {
        layers_are_scaled_one_by_one(hparams, pairs, changes, slots, n - 1);
    }
}

/// What a step makes of a layer depends on that layer alone: the same parameter,
/// gradient, settings and moments, at whatever position and among whatever other
/// layers, come out as the same parameter and the same moments.
pub proof fn layers_are_independent<S: Single>(
    one_state: LambModel<S>,
    one_pairs: Seq<Pair<S>>,
    one_hparams: Seq<SlotHparams<S>>,
    i: int,
    other_state: LambModel<S>,
    other_pairs: Seq<Pair<S>>,
    other_hparams: Seq<SlotHparams<S>>,
    j: int,
)
    requires
        one_state.config == other_state.config,
        one_state.beta1_pow_t == other_state.beta1_pow_t,
        one_state.beta2_pow_t == other_state.beta2_pow_t,
        0 <= i < one_pairs.len(),
        0 <= j < other_pairs.len(),
        one_pairs[i] == other_pairs[j],
        one_hparams[i] == other_hparams[j],
        started(one_state.slots, one_pairs, Cell2(zero::<S>(), zero::<S>()))[i] == started(
            other_state.slots,
            other_pairs,
            Cell2(zero::<S>(), zero::<S>()),
        )[j],
        one_state.stepped(one_pairs, one_hparams) is Ok,
        other_state.stepped(other_pairs, other_hparams) is Ok,
    ensures
        one_state.stepped(one_pairs, one_hparams)->Ok_0.0[i] == other_state.stepped(
            other_pairs,
            other_hparams,
        )->Ok_0.0[j],
        one_state.stepped(one_pairs, one_hparams)->Ok_0.1.slots[i] == other_state.stepped(
            other_pairs,
            other_hparams,
        )->Ok_0.1.slots[j],
{
    layer_comes_out_of_its_own_scaling(one_state, one_pairs, one_hparams, i);
    layer_comes_out_of_its_own_scaling(other_state, other_pairs, other_hparams, j);
}

proof fn layer_comes_out_of_its_own_scaling<S: Single>(
    state: LambModel<S>,
    pairs: Seq<Pair<S>>,
    hparams: Seq<SlotHparams<S>>,
    i: int,
)
    requires
        0 <= i < pairs.len(),
        state.stepped(pairs, hparams) is Ok,
    ensures
        ({
            let rule = LambModel::rule(
                state.config,
                state.beta1_pow_t.times(state.config.beta1.widened()),
                state.beta2_pow_t.times(state.config.beta2.widened()),
                hparams[i],
            );
            let slot = started(state.slots, pairs, Cell2(zero::<S>(), zero::<S>()))[i];
            let next = next_slot(rule, pairs[i], slot);
            let (params, after) = state.stepped(pairs, hparams)->Ok_0;
            &&& after.slots[i] == next
            &&& scaled_layer(
                hparams[i].lr,
                pairs[i].param,
                moved_param(rule, pairs[i], slot),
                next,
            ) == Ok::<_, Seq<char>>(params[i])
        }),
{
    let beta1_pow_t = state.beta1_pow_t.times(state.config.beta1.widened());
    let beta2_pow_t = state.beta2_pow_t.times(state.config.beta2.widened());
    let rules = Seq::new(
        pairs.len(),
        |k: int| LambModel::rule(state.config, beta1_pow_t, beta2_pow_t, hparams[k]),
    );
    let slots = started(state.slots, pairs, Cell2(zero::<S>(), zero::<S>()));
    layers_are_scaled_one_by_one(
        hparams,
        pairs,
        moved_params(rules, pairs, slots),
        next_slots(rules, pairs, slots),
        pairs.len() as int,
    );
}

/// Whether an optimizer stands where one that steps more layers would stand if it
/// had only ever stepped layer `i` of them.
pub open spec fn stands_alone<S: Single>(whole: LambModel<S>, i: int, alone: LambModel<S>) -> bool {
    &&& alone.config == whole.config
    &&& alone.step_count == whole.step_count
    &&& alone.beta1_pow_t == whole.beta1_pow_t
    &&& alone.beta2_pow_t == whole.beta2_pow_t
    &&& if whole.slots.len() == 0 {
        alone.slots.len() == 0
    } else {
        0 <= i < whole.slots.len() && alone.slots == seq![whole.slots[i]]
    }
}

/// Where a common step of several layers succeeds, a step of one of them alone
/// succeeds too and moves it in the same way.
pub proof fn layer_steps_alone_as_in_common<S: Single>(
    whole: LambModel<S>,
    pairs: Seq<Pair<S>>,
    hparams: Seq<SlotHparams<S>>,
    i: int,
    alone: LambModel<S>,
)
    requires
        stands_alone(whole, i, alone),
        0 <= i < pairs.len(),
        whole.stepped(pairs, hparams) is Ok,
    ensures
        alone.stepped(seq![pairs[i]], seq![hparams[i]]) matches Ok((params, next)) && {
            &&& params == seq![whole.stepped(pairs, hparams)->Ok_0.0[i]]
            &&& stands_alone(whole.stepped(pairs, hparams)->Ok_0.1, i, next)
        },
{
    let blank = Cell2(zero::<S>(), zero::<S>());
    let pair = seq![pairs[i]];
    let hparam = seq![hparams[i]];
    accepted_step_is_lamb_aligned(whole.slots, pairs, blank);
    let slots = started(whole.slots, pairs, blank);
    assert(pairs[i].param.shape == slots[i].shape);
    reveal_with_fuel(gradient_error, 2);
    reveal_with_fuel(param_error, 2);
    assert(lamb_step_error(alone.slots, pair) is None);
    let own = started(alone.slots, pair, blank);
    assert(own =~= seq![slots[i]]);
    layer_comes_out_of_its_own_scaling(whole, pairs, hparams, i);
    let beta1_pow_t = alone.beta1_pow_t.times(alone.config.beta1.widened());
    let beta2_pow_t = alone.beta2_pow_t.times(alone.config.beta2.widened());
    let rules = Seq::new(
        pair.len(),
        |k: int| LambModel::rule(alone.config, beta1_pow_t, beta2_pow_t, hparam[k]),
    );
    let changes = moved_params(rules, pair, own);
    let next = next_slots(rules, pair, own);
    reveal_with_fuel(scaled_layers, 2);
    let out = whole.stepped(pairs, hparams)->Ok_0.0;
    assert(scaled_layers(hparam, pair, changes, next, 1) == Ok::<_, ErrorModel>(
        Seq::empty().push(out[i]),
    ));
    assert(Seq::empty().push(out[i]) =~= seq![out[i]]);
    assert(next =~= seq![whole.stepped(pairs, hparams)->Ok_0.1.slots[i]]);
}

/// The optimizer after some steps in turn, or the error of the first that fails.
pub open spec fn lamb_after<S: Single>(state: LambModel<S>, steps: Seq<StepInput<S>>) -> Result<
    LambModel<S>,
    ErrorModel,
>
    decreases steps.len(),
{
    if steps.len() == 0 {
        Ok(state)
    } else {
        match lamb_after(state, steps.drop_last()) {
            Err(e) => Err(e),
            Ok(before) => match before.stepped(steps.last().0, steps.last().1) {
                Err(e) => Err(e),
                Ok((_, next)) => Ok(next),
            },
        }
    }
}

/// What layer `i` alone has of steps of several layers.
pub open spec fn steps_of_layer<S: Single>(steps: Seq<StepInput<S>>, i: int) -> Seq<StepInput<S>> {
    steps.map_values(|step: StepInput<S>| (seq![step.0[i]], seq![step.1[i]]))
}

/// As long as common steps of several layers succeed, steps of one of them alone
/// succeed too, and each moves it in the same way.
pub proof fn layer_goes_alone_as_in_common<S: Single>(
    whole: LambModel<S>,
    steps: Seq<StepInput<S>>,
    i: int,
    alone: LambModel<S>,
)
    requires
        stands_alone(whole, i, alone),
        forall|k: int| 0 <= k < steps.len() ==> 0 <= i < (#[trigger] steps[k]).0.len(),
        lamb_after(whole, steps) is Ok,
    ensures
        lamb_after(alone, steps_of_layer(steps, i)) matches Ok(next) && stands_alone(
            lamb_after(whole, steps)->Ok_0,
            i,
            next,
        ),
        steps.len() > 0 ==> {
            let before = lamb_after(whole, steps.drop_last())->Ok_0;
            let own = lamb_after(alone, steps_of_layer(steps, i).drop_last())->Ok_0;
            let (pairs, hparams) = steps.last();
            own.stepped(seq![pairs[i]], seq![hparams[i]]) matches Ok((params, _)) && params == seq![
                before.stepped(pairs, hparams)->Ok_0.0[i],
            ]
        },
    decreases steps.len(),
{
    if steps.len() > 0 {
        let front = steps.drop_last();
        assert(steps_of_layer(steps, i).drop_last() =~= steps_of_layer(front, i));
        assert forall|k: int| 0 <= k < front.len() implies 0 <= i < (#[trigger] front[k]).0.len() by {
            assert(0 <= i < steps[k].0.len());
        }
        layer_goes_alone_as_in_common(whole, front, i, alone);
        assert(0 <= i < steps[steps.len() - 1].0.len());
        layer_steps_alone_as_in_common(
            lamb_after(whole, front)->Ok_0,
            steps.last().0,
            steps.last().1,
            i,
            lamb_after(alone, steps_of_layer(front, i))->Ok_0,
        );
    }
}

/// The trust ratio is not negative. It grows with the learning rate and the length of
/// the parameter and falls with the length of the change. For a change of length one it
/// is the learning rate times the length of the parameter, so that the layer moves by
/// that much, and where the parameter has length one too it is the learning rate.
pub proof fn trust_ratio_follows_the_lengths<S: Single>(
    lr: S,
    higher: S,
    norm_x: S::Wide,
    norm_t: S::Wide,
    longer: S::Wide,
)
    requires
        zero::<S>().at_most(lr),
        zero::<S::Wide>().less(norm_x),
        zero::<S::Wide>().less(norm_t),
        is_number(trust_ratio(lr, norm_x, norm_t)),
    ensures
        zero::<S>().at_most(trust_ratio(lr, norm_x, norm_t)),
        norm_x.at_most(longer) && is_number(trust_ratio(lr, longer, norm_t)) ==> trust_ratio(
            lr,
            norm_x,
            norm_t,
        ).at_most(trust_ratio(lr, longer, norm_t)),
        norm_t.at_most(longer) && is_number(trust_ratio(lr, norm_x, longer)) ==> trust_ratio(
            lr,
            norm_x,
            longer,
        ).at_most(trust_ratio(lr, norm_x, norm_t)),
        lr.at_most(higher) && is_number(trust_ratio(higher, norm_x, norm_t)) ==> trust_ratio(
            lr,
            norm_x,
            norm_t,
        ).at_most(trust_ratio(higher, norm_x, norm_t)),
        norm_t == one::<S::Wide>() ==> trust_ratio(lr, norm_x, norm_t) == S::rounded(
            lr.widened().times(norm_x),
        ),
        norm_t == one::<S::Wide>() && norm_x == one::<S::Wide>() && lr.finite() ==> trust_ratio(
            lr,
            norm_x,
            norm_t,
        ) == lr,
{
    let nothing = zero::<S::Wide>();
    let wide = lr.widened();
    let top = wide.times(norm_x);
    let ratio = top.over(norm_t);
    nothing.order(norm_x, nothing);
    nothing.order(norm_t, nothing);
    nothing.order(norm_x, longer);
    nothing.order(norm_t, longer);
    norm_x.order(nothing, nothing);
    norm_t.order(nothing, nothing);
    longer.order(nothing, nothing);
    nothing.order(longer, longer);
    zero::<S>().precisions(ratio);
    lr.precisions(ratio);
    top.fused_operands(norm_t, top);
    wide.fused_operands(norm_x, top);
    wide.signs(norm_x);
    top.signs(norm_t);
    top.neutral(norm_t);
    wide.neutral(norm_x);
    norm_x.neutral(wide);
    if norm_x.at_most(longer) && is_number(trust_ratio(lr, longer, norm_t)) {
        let more = wide.times(longer);
        lr.precisions(more.over(norm_t));
        more.fused_operands(norm_t, more);
        norm_x.order(longer, wide);
        longer.neutral(wide);
        top.order(more, norm_t);
    }
    if norm_t.at_most(longer) && is_number(trust_ratio(lr, norm_x, longer)) {
        lr.precisions(top.over(longer));
        norm_t.order(longer, top);
        lr.precisions(top.over(longer));
    }
    if lr.at_most(higher) && is_number(trust_ratio(higher, norm_x, norm_t)) {
        let more = higher.widened().times(norm_x);
        lr.precisions(more.over(norm_t));
        more.fused_operands(norm_t, more);
        wide.order(higher.widened(), norm_x);
        top.order(more, norm_t);
    }
}

/// The length of a vector is not negative, that of an empty one is zero, and that of one
/// with a single element of zero, one or two is that element.
pub proof fn lengths_of_short_vectors<S: Single>(data: Seq<S>)
    ensures
        is_number(norm(data)) ==> zero::<S::Wide>().at_most(norm(data)),
        data.len() == 0 ==> norm(data) == zero::<S::Wide>(),
        data == seq![one::<S>()] ==> norm(data) == one::<S::Wide>(),
        data.len() == 1 && data[0].widened() == <S::Wide as Real>::decimal(2, 0) ==> norm(data)
            == <S::Wide as Real>::decimal(2, 0),
{
    let unit = one::<S::Wide>();
    let two = <S::Wide as Real>::decimal(2, 0);
    let four = <S::Wide as Real>::decimal(4, 0);
    let sum = squares(data, data.len() as int);
    sum.fused_operands(sum, sum);
    zero::<S::Wide>().neutral(unit);
    unit.neutral(unit);
    unit.neutral(zero());
    four.neutral(zero());
    zero::<S::Wide>().neutral(four);
    one::<S>().precisions(unit);
    zero_is_zero::<S::Wide>();
    <S::Wide as Real>::decimals(0, 1, 0);
    <S::Wide as Real>::decimals(0, 4, 0);
    <S::Wide as Real>::decimals(4, 4, 0);
    zero::<S::Wide>().order(unit, unit);
    unit.order(zero(), zero());
    zero::<S::Wide>().order(four, four);
    four.order(zero(), zero());
    reveal_with_fuel(squares, 2);
}

proof fn squares_are_not_negative<S: Single>(data: Seq<S>, n: int)
    requires
        0 <= n <= data.len(),
        is_number(squares(data, n)),
    ensures
        zero::<S::Wide>().at_most(squares(data, n)),
    decreases n,
{
    zero_is_zero::<S::Wide>();
    if n > 0 {
        let x = data[n - 1].widened();
        let before = squares(data, n - 1);
        before.fused_operands(x.times(x), x);
        x.fused_operands(x, x);
        squares_are_not_negative(data, n - 1);
        number_has_a_side(x);
        aligned_product(x, x);
        before.signs(x.times(x));
        zero::<S::Wide>().order(before, squares(data, n));
    }
}

proof fn squares_of_prefix<S: Single>(a: Seq<S>, b: Seq<S>, n: int)
    requires
        0 <= n <= a.len(),
        n <= b.len(),
        forall|k: int| 0 <= k < n ==> a[k] == b[k],
    ensures
        squares(a, n) == squares(b, n),
    decreases n,
{
    if n > 0 {
        squares_of_prefix(a, b, n - 1);
    }
}

/// An additional element does not make a vector shorter.
pub proof fn longer_vectors_are_longer<S: Single>(data: Seq<S>, x: S)
    requires
        is_number(norm(data.push(x))),
    ensures
        norm(data).at_most(norm(data.push(x))),
{
    let all = data.push(x);
    let n = data.len() as int;
    let wide = x.widened();
    squares_of_prefix(data, all, n);
    let before = squares(data, n);
    let after = squares(all, n + 1);
    assert(after == before.plus(wide.times(wide)));
    after.fused_operands(after, after);
    before.fused_operands(wide.times(wide), wide);
    wide.fused_operands(wide, wide);
    number_has_a_side(wide);
    aligned_product(wide, wide);
    before.signs(wide.times(wide));
    squares_are_not_negative(data, n);
    before.order(after, after);
}

/// Each element of a layer moves against its change, and not at all where the change is
/// zero. A larger learning rate takes it further. Where both have length one, the change
/// is subtracted times the learning rate, and where the parameter or the change has no
/// length, the change is subtracted as it is.
pub proof fn layers_move_against_their_change<S: Single>(
    lr: S,
    higher: S,
    param: TensorModel<S>,
    change: TensorModel<S>,
    slot: SlotModel<Cell2<S>>,
    k: int,
)
    requires
        zero::<S>().at_most(lr),
        0 <= k < param.data.len(),
        scaled_layer(lr, param, change, slot) matches Ok(after) && is_number(after.data[k]),
    ensures
        scaled_layer(lr, param, change, slot) matches Ok(after) && {
            &&& after.shape == param.shape
            &&& after.data.len() == param.data.len()
            &&& against(change.data[k], param.data[k], after.data[k])
            &&& norm(param.data).same(zero()) || norm(change.data).same(zero())
                ==> after.data[k] == param.data[k].minus(change.data[k])
            &&& norm(param.data) == one::<S::Wide>() && norm(change.data) == one::<S::Wide>()
                && lr.finite() ==> after.data[k] == lr.negated().fused(
                change.data[k],
                param.data[k],
            )
            &&& lr.at_most(higher) ==> match scaled_layer(higher, param, change, slot) {
                Ok(further) => is_number(further.data[k]) ==> against(
                    change.data[k],
                    after.data[k],
                    further.data[k],
                ),
                Err(_) => true,
            }
        },
{
    let norm_x = norm(param.data);
    let norm_t = norm(change.data);
    let ratio = trust_ratio(lr, norm_x, norm_t);
    let x = param.data[k];
    let t = change.data[k];
    x.neutral(t);
    zero_is_zero::<S>();
    ratio.order(ratio, ratio);
    norm_x.order(norm_x, norm_x);
    norm_t.order(norm_t, norm_t);
    lengths_of_short_vectors(param.data);
    lengths_of_short_vectors(change.data);
    zero::<S::Wide>().order(norm_x, norm_x);
    zero::<S::Wide>().order(norm_t, norm_t);
    norm_x.order(zero(), zero());
    norm_t.order(zero(), zero());
    zero_is_zero::<S::Wide>();
    <S::Wide as Real>::decimals(0, 1, 0);
    zero::<S::Wide>().order(one(), one());
    one::<S::Wide>().order(zero(), zero());
    if !(norm_x.same(zero()) || norm_t.same(zero())) {
        trust_ratio_follows_the_lengths(lr, higher, norm_x, norm_t, norm_x);
    }
    assert(zero::<S>().at_most(ratio));
    ratio.signs(ratio);
    ratio.negated().fused_operands(t, x);
    if lr.at_most(higher) {
        let other = trust_ratio(higher, norm_x, norm_t);
        other.order(other, other);
        match scaled_layer(higher, param, change, slot) {
            Ok(further) => {
                if is_number(further.data[k]) {
                    assert(ratio.at_most(other));
                    ratio.signs(other);
                    other.negated().fused_operands(t, x);
                    t.fused_operands(other.negated(), x);
                }
            },
            Err(_) => {},
        }
    }
}

/// The change points where the gradient does, as far as no decay is added, and decay
/// adds to it in the direction of the parameter.
pub proof fn lamb_change_follows_the_gradient<S: Single>(
    rule: LambRule<S>,
    param: S,
    grad: S,
    cell: Cell2<S>,
)
    requires
        in_unit_range(rule.beta1),
        zero::<S>().at_most(rule.step_size),
        zero::<S>().less(rule.bias_correction2_sqrt),
        zero::<S>().less(rule.eps),
        sided(grad, cell.0),
        is_number(rule.moved(param, grad, cell)),
    ensures
        ({
            let plain = LambRule { weight_decay: zero::<S>(), ..rule };
            &&& sided(grad, plain.moved(param, grad, cell))
            &&& sided(grad, rule.next(param, grad, cell).0)
            &&& zero::<S>().at_most(rule.lr.times(rule.weight_decay)) ==> against(
                param,
                rule.moved(param, grad, cell),
                plain.moved(param, grad, cell),
            )
            &&& rule.lr == one::<S>() && rule.weight_decay == one::<S>() ==> rule.moved(
                param,
                grad,
                cell,
            ) == param.plus(plain.moved(param, grad, cell))
            &&& rule.weight_decay == one::<S>() && param == one::<S>() ==> rule.moved(
                param,
                grad,
                cell,
            ) == rule.lr.plus(plain.moved(param, grad, cell))
            &&& rule.lr == one::<S>() && param == one::<S>() && !rule.weight_decay.same(zero())
                ==> rule.moved(param, grad, cell) == rule.weight_decay.plus(
                plain.moved(param, grad, cell),
            )
        }),
{
    let plain = LambRule { weight_decay: zero::<S>(), ..rule };
    let next = rule.next(param, grad, cell);
    let d = next.1.root().over(rule.bias_correction2_sqrt).plus(rule.eps);
    let way = rule.step_size.times(next.0);
    let s = way.over(d);
    zero::<S>().neutral(zero());
    let pull = rule.lr.times(rule.weight_decay);
    pull.fused_operands(param, s);
    way.fused_operands(d, d);
    rule.step_size.fused_operands(next.0, next.0);
    divisor_is_positive(next.1, rule.bias_correction2_sqrt, rule.eps);
    grad.fused_operands(grad, grad);
    rule.beta1.fused_operands(cell.0, one::<S>().minus(rule.beta1).times(grad));
    one::<S>().minus(rule.beta1).fused_operands(grad, grad);
    grad.order(grad, grad);
    assert(sided(grad, grad));
    average_on_one_side(grad, rule.beta1, cell.0, grad);
    sided_product(grad, next.0, rule.step_size);
    sided_quotient(grad, way, d);
    s.order(s, s);
    one::<S>().neutral(one());
    s.neutral(param);
    s.neutral(pull);
    rule.lr.neutral(one());
    rule.weight_decay.neutral(one());
    one::<S>().neutral(rule.weight_decay);
    pull.fused_operands(one(), s);
    S::decimals(0, 1, 0);
    zero::<S>().order(one(), one());
    one::<S>().order(zero(), zero());
}

/// The moments forget at the rates given, and the mean of squares enters by its root.
pub proof fn lamb_moments<S: Single>(rule: LambRule<S>, param: S, grad: S, cell: Cell2<S>)
    requires
        in_unit_range(rule.beta1),
        in_unit_range(rule.beta2),
        cell.0.finite(),
        cell.1.finite(),
        grad.finite(),
        grad.times(grad).finite(),
    ensures
        ({
            let next = rule.next(param, grad, cell);
            &&& rule.beta1 == zero::<S>() ==> next.0.same(grad)
            &&& rule.beta1 == one::<S>() ==> next.0.same(cell.0)
            &&& rule.beta2 == zero::<S>() ==> next.1.same(grad.times(grad))
            &&& rule.beta2 == one::<S>() ==> next.1.same(cell.1)
            &&& cell == Cell2(one::<S>(), one::<S>()) && grad == one::<S>() ==> next == Cell2(
                one::<S>(),
                one::<S>(),
            )
            &&& cell == Cell2(one::<S>(), one::<S>()) && grad == zero::<S>() ==> next.0.same(
                rule.beta1,
            ) && next.1.same(rule.beta2)
            &&& zero::<S>().at_most(cell.1) && is_number(next.1) ==> zero::<S>().at_most(next.1)
            &&& rule.weight_decay.same(zero()) && rule.bias_correction2_sqrt == one::<S>()
                && next.1 == S::decimal(4, 0) ==> rule.moved(param, grad, cell)
                == rule.step_size.times(next.0).over(S::decimal(2, 0).plus(rule.eps))
        }),
{
    let next = rule.next(param, grad, cell);
    average_between_its_ends(cell.0, grad);
    squares_between_their_ends(cell.1, grad);
    average_of_ones(rule.beta1);
    average_of_ones(rule.beta2);
    fading_average(rule.beta1);
    fading_average(rule.beta2);
    if zero::<S>().at_most(cell.1) && is_number(next.1) {
        average_of_squares(rule.beta2, cell.1, grad);
    }
    one::<S>().neutral(next.0);
    next.0.neutral(one());
    S::decimal(2, 0).neutral(one());
}

} // verus!
