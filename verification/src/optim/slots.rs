//! State that an optimizer keeps for each parameter.
//!
//! A slot belongs to the parameter at one position of the lists that the caller
//! hands over. It holds a [`Cell`] for each element of the parameter. One step
//! applies a [`Rule`] to every element of every parameter.
use crate::error::{AutodiffError, ErrorModel, invalid, refused};
use crate::number::{Real, Single, zero};
use crate::optim::state_dict::{DecodedSlot, Layout, SlotData, restored};
use crate::tensor::{
    Tensor, TensorModel, copied, count, countable, same_shape, shape_mismatch, with_shape,
};
pub(crate) use crate::tensor::repeated;
use crate::text::{followed_by, followed_by_count, joined, numeral};
use vstd::prelude::*;

verus! {

/// What is kept for one element of a parameter: one number from each buffer.
pub trait Cell<S: Real>: Copy {
    /// The number of buffers.
    spec fn width() -> nat;

    /// The number from buffer `j`.
    spec fn part(self, j: int) -> S;

    spec fn of_parts(parts: Seq<S>) -> Self;

    proof fn parts_determine_the_cell(self)
        ensures
            Self::of_parts(Seq::new(Self::width(), |j: int| self.part(j))) == self,
    ;

    proof fn parts_are_kept(parts: Seq<S>, j: int)
        requires
            parts.len() == Self::width(),
            0 <= j < parts.len(),
        ensures
            Self::of_parts(parts).part(j) == parts[j],
    ;

    fn buffers() -> (r: usize)
        ensures
            r == Self::width(),
    ;

    fn get(self, j: usize) -> (r: S)
        requires
            j < Self::width(),
        ensures
            r == self.part(j as int),
    ;

    /// The cell at position `k` of the buffers.
    fn gather(buffers: &Vec<Vec<S>>, k: usize) -> (r: Self)
        requires
            buffers@.len() == Self::width(),
            forall|j: int| 0 <= j < buffers@.len() ==> k < (#[trigger] buffers@[j])@.len(),
        ensures
            r == Self::of_parts(Seq::new(Self::width(), |j: int| buffers@[j]@[k as int])),
    ;
}

/// A cell with one buffer.
#[derive(Clone, Copy)]
pub struct Cell1<S>(pub S);

/// A cell with two buffers.
#[derive(Clone, Copy)]
pub struct Cell2<S>(pub S, pub S);

/// A cell with three buffers.
#[derive(Clone, Copy)]
pub struct Cell3<S>(pub S, pub S, pub S);

impl<S: Real> Cell<S> for Cell1<S> {
    open spec fn width() -> nat {
        1
    }

    open spec fn part(self, j: int) -> S {
        self.0
    }

    open spec fn of_parts(parts: Seq<S>) -> Self {
        Cell1(parts[0])
    }

    proof fn parts_determine_the_cell(self) {
    }

    proof fn parts_are_kept(parts: Seq<S>, j: int) {
    }

    fn buffers() -> (r: usize) {
        1
    }

    fn get(self, j: usize) -> (r: S) {
        self.0
    }

    fn gather(buffers: &Vec<Vec<S>>, k: usize) -> (r: Self) {
        Cell1(buffers[0][k])
    }
}

impl<S: Real> Cell<S> for Cell2<S> {
    open spec fn width() -> nat {
        2
    }

    open spec fn part(self, j: int) -> S {
        if j == 0 {
            self.0
        } else {
            self.1
        }
    }

    open spec fn of_parts(parts: Seq<S>) -> Self {
        Cell2(parts[0], parts[1])
    }

    proof fn parts_determine_the_cell(self) {
    }

    proof fn parts_are_kept(parts: Seq<S>, j: int) {
    }

    fn buffers() -> (r: usize) {
        2
    }

    fn get(self, j: usize) -> (r: S) {
        if j == 0 {
            self.0
        } else {
            self.1
        }
    }

    fn gather(buffers: &Vec<Vec<S>>, k: usize) -> (r: Self) {
        Cell2(buffers[0][k], buffers[1][k])
    }
}

impl<S: Real> Cell<S> for Cell3<S> {
    open spec fn width() -> nat {
        3
    }

    open spec fn part(self, j: int) -> S {
        if j == 0 {
            self.0
        } else if j == 1 {
            self.1
        } else {
            self.2
        }
    }

    open spec fn of_parts(parts: Seq<S>) -> Self {
        Cell3(parts[0], parts[1], parts[2])
    }

    proof fn parts_determine_the_cell(self) {
    }

    proof fn parts_are_kept(parts: Seq<S>, j: int) {
    }

    fn buffers() -> (r: usize) {
        3
    }

    fn get(self, j: usize) -> (r: S) {
        if j == 0 {
            self.0
        } else if j == 1 {
            self.1
        } else {
            self.2
        }
    }

    fn gather(buffers: &Vec<Vec<S>>, k: usize) -> (r: Self) {
        Cell3(buffers[0][k], buffers[1][k], buffers[2][k])
    }
}

/// How one step changes one element of a parameter and its cell.
pub trait Rule<S: Real, C: Cell<S>> {
    /// The element after the step.
    spec fn moved(self, param: S, grad: S, cell: C) -> S;

    /// The cell after the step.
    spec fn next(self, param: S, grad: S, cell: C) -> C;

    fn apply(&self, param: S, grad: S, cell: C) -> (r: (S, C))
        ensures
            r.0 == self.moved(param, grad, cell),
            r.1 == self.next(param, grad, cell),
    ;
}

/// The gradient with the decay of the parameter added to it.
pub open spec fn decayed<S: Real>(weight_decay: S, param: S, grad: S) -> S {
    if weight_decay.same(zero()) {
        grad
    } else {
        weight_decay.fused(param, grad)
    }
}

pub(crate) fn decay_gradient<S: Real>(weight_decay: S, param: S, grad: S) -> (r: S)
    ensures
        r == decayed(weight_decay, param, grad),
{
    if weight_decay.eq(S::literal(0, 0)) {
        grad
    } else {
        weight_decay.mul_add(param, grad)
    }
}

/// The point between `start` and `end` at the given weight of `end`, where `rest`
/// is the weight of `start`. It is computed from the end that is nearer.
pub open spec fn blended<S: Real>(start: S, end: S, weight: S, rest: S) -> S {
    if weight.magnitude().less(S::decimal(5, -1)) {
        start.plus(weight.times(end.minus(start)))
    } else {
        end.minus(end.minus(start).times(rest))
    }
}

pub(crate) fn blend<S: Real>(start: S, end: S, weight: S, rest: S) -> (r: S)
    ensures
        r == blended(start, end, weight, rest),
{
    if weight.abs().lt(S::literal(5, -1)) {
        start.add(weight.mul(end.sub(start)))
    } else {
        end.sub(end.sub(start).mul(rest))
    }
}

/// A parameter and its gradient, as mathematical values.
#[verifier::ext_equal]
pub struct Pair<S> {
    pub param: TensorModel<S>,
    pub grad: TensorModel<S>,
}

/// The parameters and gradients that a step is given.
pub open spec fn inputs<'a, S>(pairs: Seq<(&'a Tensor<S>, &'a Tensor<S>)>) -> Seq<Pair<S>> {
    pairs.map_values(|p: (&'a Tensor<S>, &'a Tensor<S>)| Pair { param: p.0@, grad: p.1@ })
}

/// The contents of a list of tensors.
pub open spec fn models<S>(tensors: Seq<Tensor<S>>) -> Seq<TensorModel<S>> {
    tensors.map_values(|t: Tensor<S>| t@)
}

/// A slot as a mathematical value.
#[verifier::ext_equal]
pub struct SlotModel<C> {
    pub shape: Seq<usize>,
    pub cells: Seq<C>,
}

/// The state that belongs to one parameter.
pub struct Slot<C> {
    shape: Vec<usize>,
    cells: Vec<C>,
}

impl<C> View for Slot<C> {
    type V = SlotModel<C>;

    closed spec fn view(&self) -> SlotModel<C> {
        SlotModel { shape: self.shape@, cells: self.cells@ }
    }
}

impl<C> Slot<C> {
    /// Whether there are as many cells as the shape asks for.
    #[verifier::type_invariant]
    pub closed spec fn wf(self) -> bool {
        count(self.shape@) == self.cells@.len() && countable(self.shape@)
    }

    /// The shape of the parameter.
    pub fn shape(&self) -> (r: &[usize])
        ensures
            r@ == self@.shape,
    {
        self.shape.as_slice()
    }

    /// The cells, in the order of the parameter's elements.
    pub fn cells(&self) -> (r: &[C])
        ensures
            r@ == self@.cells,
    {
        self.cells.as_slice()
    }
}

/// The contents of a list of slots.
pub open spec fn slot_models<C>(slots: Seq<Slot<C>>) -> Seq<SlotModel<C>> {
    slots.map_values(|s: Slot<C>| s@)
}

/// The error of a step whose gradients do not have the shapes of the parameters,
/// looking from position `i` on.
pub open spec fn gradient_error<S>(pairs: Seq<Pair<S>>, i: int) -> Option<ErrorModel>
    decreases pairs.len() - i,
{
    if i >= pairs.len() {
        None
    } else if pairs[i].grad.shape != pairs[i].param.shape {
        Some(ErrorModel::ShapeMismatch { lhs: pairs[i].grad.shape, rhs: pairs[i].param.shape })
    } else {
        gradient_error(pairs, i + 1)
    }
}

/// The error of a step whose parameters do not have the shapes of the slots or
/// whose gradients do not have those of the parameters, looking from position
/// `i` on.
pub open spec fn pair_error<S, C>(
    slots: Seq<SlotModel<C>>,
    pairs: Seq<Pair<S>>,
    i: int,
) -> Option<ErrorModel>
    decreases pairs.len() - i,
{
    if i >= pairs.len() {
        None
    } else if pairs[i].param.shape != slots[i].shape {
        Some(ErrorModel::ShapeMismatch { lhs: pairs[i].param.shape, rhs: slots[i].shape })
    } else if pairs[i].grad.shape != pairs[i].param.shape {
        Some(ErrorModel::ShapeMismatch { lhs: pairs[i].grad.shape, rhs: pairs[i].param.shape })
    } else {
        pair_error(slots, pairs, i + 1)
    }
}

/// The error of a step with another number of parameters than the first step of
/// optimizer `who` had, which keeps the buffers `kept` for each of them.
pub open spec fn slot_count_changed(
    who: &str,
    kept: &str,
    expected: nat,
    given: nat,
) -> ErrorModel {
    ErrorModel::InvalidArgument(
        who@ + "::step: slot count changed across calls (expected "@ + numeral(expected)
            + ", got "@ + numeral(given) + "); "@ + who@ + " state ("@ + kept@
            + ") is keyed by call-order slot index and cannot be resized after the first step()"@,
    )
}

pub(crate) fn refuse_slot_count(who: &str, kept: &str, expected: usize, given: usize) -> (r:
    AutodiffError)
    ensures
        r@ == slot_count_changed(who, kept, expected as nat, given as nat),
{
    let text: String = joined(who, "::step: slot count changed across calls (expected ");
    let text: String = followed_by_count(text, expected);
    let text: String = followed_by(text, ", got ");
    let text: String = followed_by_count(text, given);
    let text: String = followed_by(text, "); ");
    let text: String = followed_by(text, who);
    let text: String = followed_by(text, " state (");
    let text: String = followed_by(text, kept);
    AutodiffError::InvalidArgument(
        followed_by(
            text,
            ") is keyed by call-order slot index and cannot be resized after the first step()",
        ),
    )
}

/// Why a step of optimizer `who`, which keeps the buffers `kept`, is refused, if it
/// is. Slots that have been set up fix the number of parameters and their shapes.
pub open spec fn step_error<S, C>(
    who: &str,
    kept: &str,
    slots: Seq<SlotModel<C>>,
    pairs: Seq<Pair<S>>,
) -> Option<ErrorModel> {
    if slots.len() == 0 {
        gradient_error(pairs, 0)
    } else if pairs.len() != slots.len() {
        Some(slot_count_changed(who, kept, slots.len(), pairs.len()))
    } else {
        pair_error(slots, pairs, 0)
    }
}

/// The slots that the first step sets up, with `blank` in every cell.
pub open spec fn fresh_slots<S, C>(pairs: Seq<Pair<S>>, blank: C) -> Seq<SlotModel<C>> {
    pairs.map_values(
        |p: Pair<S>|
            SlotModel { shape: p.param.shape, cells: Seq::new(p.param.data.len(), |k: int| blank) },
    )
}

/// The slots that a step works on.
pub open spec fn started<S, C>(
    slots: Seq<SlotModel<C>>,
    pairs: Seq<Pair<S>>,
    blank: C,
) -> Seq<SlotModel<C>> {
    if slots.len() == 0 {
        fresh_slots(pairs, blank)
    } else {
        slots
    }
}

/// A parameter after a step.
pub open spec fn moved_param<S: Real, C: Cell<S>, R: Rule<S, C>>(
    rule: R,
    pair: Pair<S>,
    slot: SlotModel<C>,
) -> TensorModel<S> {
    TensorModel {
        shape: pair.param.shape,
        data: Seq::new(
            pair.param.data.len(),
            |k: int| rule.moved(pair.param.data[k], pair.grad.data[k], slot.cells[k]),
        ),
    }
}

/// A slot after a step.
pub open spec fn next_slot<S: Real, C: Cell<S>, R: Rule<S, C>>(
    rule: R,
    pair: Pair<S>,
    slot: SlotModel<C>,
) -> SlotModel<C> {
    SlotModel {
        shape: slot.shape,
        cells: Seq::new(
            slot.cells.len(),
            |k: int| rule.next(pair.param.data[k], pair.grad.data[k], slot.cells[k]),
        ),
    }
}

/// The parameters after a step in which each slot has a rule of its own.
pub open spec fn moved_params<S: Real, C: Cell<S>, R: Rule<S, C>>(
    rules: Seq<R>,
    pairs: Seq<Pair<S>>,
    slots: Seq<SlotModel<C>>,
) -> Seq<TensorModel<S>> {
    Seq::new(pairs.len(), |i: int| moved_param(rules[i], pairs[i], slots[i]))
}

/// The slots after a step in which each slot has a rule of its own.
pub open spec fn next_slots<S: Real, C: Cell<S>, R: Rule<S, C>>(
    rules: Seq<R>,
    pairs: Seq<Pair<S>>,
    slots: Seq<SlotModel<C>>,
) -> Seq<SlotModel<C>> {
    Seq::new(pairs.len(), |i: int| next_slot(rules[i], pairs[i], slots[i]))
}

/// Whether parameters, gradients and slots have the same shapes.
pub open spec fn aligned<S, C>(pairs: Seq<Pair<S>>, slots: Seq<SlotModel<C>>) -> bool {
    &&& pairs.len() == slots.len()
    &&& forall|i: int|
        0 <= i < pairs.len() ==> {
            &&& (#[trigger] pairs[i]).param.shape == slots[i].shape
            &&& pairs[i].grad.shape == pairs[i].param.shape
        }
}

proof fn no_gradient_error<S>(pairs: Seq<Pair<S>>, i: int)
    requires
        gradient_error(pairs, i) is None,
        0 <= i,
    ensures
        forall|k: int|
            i <= k < pairs.len() ==> (#[trigger] pairs[k]).grad.shape == pairs[k].param.shape,
    decreases pairs.len() - i,
{
    if i < pairs.len() {
        no_gradient_error(pairs, i + 1);
    }
}

proof fn no_pair_error<S, C>(slots: Seq<SlotModel<C>>, pairs: Seq<Pair<S>>, i: int)
    requires
        pair_error(slots, pairs, i) is None,
        0 <= i,
    ensures
        forall|k: int|
            i <= k < pairs.len() ==> {
                &&& (#[trigger] pairs[k]).param.shape == slots[k].shape
                &&& pairs[k].grad.shape == pairs[k].param.shape
            },
    decreases pairs.len() - i,
{
    if i < pairs.len() {
        no_pair_error(slots, pairs, i + 1);
    }
}

/// A step that is not refused works on slots of the right shapes.
pub(crate) proof fn accepted_step_is_aligned<S, C>(
    who: &str,
    kept: &str,
    slots: Seq<SlotModel<C>>,
    pairs: Seq<Pair<S>>,
    blank: C,
)
    requires
        step_error(who, kept, slots, pairs) is None,
    ensures
        aligned(pairs, started(slots, pairs, blank)),
{
    if slots.len() == 0 {
        no_gradient_error(pairs, 0);
    } else {
        no_pair_error(slots, pairs, 0);
    }
}

/// Refuses gradients that do not have the shapes of the parameters.
pub(crate) fn check_gradients<S>(pairs: &[(&Tensor<S>, &Tensor<S>)]) -> (r: Result<
    (),
    AutodiffError,
>)
    ensures
        match r {
            Ok(_) => gradient_error(inputs(pairs@), 0) is None,
            Err(e) => gradient_error(inputs(pairs@), 0) == Some(e@),
        },
{
    let mut i: usize = 0;
    while i < pairs.len()
        invariant
            i <= pairs@.len(),
            gradient_error(inputs(pairs@), 0) == gradient_error(inputs(pairs@), i as int),
        decreases pairs@.len() - i,
    {
        let (param, grad) = (pairs[i].0, pairs[i].1);
        assert(inputs(pairs@)[i as int] == Pair { param: param@, grad: grad@ });
        if !same_shape(grad.shape(), param.shape()) {
            return Err(shape_mismatch(grad.shape(), param.shape()));
        }
        i = i + 1;
    }
    Ok(())
}

/// Refuses a step whose inputs do not fit the slots.
pub(crate) fn check_step<S, C>(
    who: &str,
    kept: &str,
    slots: &Vec<Slot<C>>,
    pairs: &[(&Tensor<S>, &Tensor<S>)],
) -> (r: Result<(), AutodiffError>)
    ensures
        match r {
            Ok(_) => step_error(who, kept, slot_models(slots@), inputs(pairs@)) is None,
            Err(e) => step_error(who, kept, slot_models(slots@), inputs(pairs@)) == Some(e@),
        },
{
    if slots.len() == 0 {
        return check_gradients(pairs);
    }
    if pairs.len() != slots.len() {
        return Err(refuse_slot_count(who, kept, slots.len(), pairs.len()));
    }
    let ghost models = slot_models(slots@);
    let mut i: usize = 0;
    while i < pairs.len()
        invariant
            models == slot_models(slots@),
            pairs@.len() == slots@.len(),
            i <= pairs@.len(),
            pair_error(models, inputs(pairs@), 0) == pair_error(models, inputs(pairs@), i as int),
        decreases pairs@.len() - i,
    {
        let (param, grad) = (pairs[i].0, pairs[i].1);
        assert(inputs(pairs@)[i as int] == Pair { param: param@, grad: grad@ });
        assert(models[i as int] == slots@[i as int]@);
        if !same_shape(param.shape(), slots[i].shape.as_slice()) {
            return Err(shape_mismatch(param.shape(), slots[i].shape.as_slice()));
        }
        if !same_shape(grad.shape(), param.shape()) {
            return Err(shape_mismatch(grad.shape(), param.shape()));
        }
        i = i + 1;
    }
    Ok(())
}

/// The step count after one more step.
pub open spec fn counted(step_count: u64) -> Result<u64, ErrorModel> {
    if step_count == u64::MAX {
        Err(refused("the step count cannot grow any further"))
    } else {
        Ok((step_count + 1) as u64)
    }
}

pub(crate) fn count_step(step_count: u64) -> (r: Result<u64, AutodiffError>)
    ensures
        match r {
            Ok(n) => counted(step_count) == Ok::<u64, ErrorModel>(n),
            Err(e) => counted(step_count) == Err::<u64, _>(e@),
        },
{
    match step_count.checked_add(1) {
        Some(n) => Ok(n),
        None => Err(invalid("the step count cannot grow any further")),
    }
}

/// A state that has been restored has room for one more step.
pub proof fn restored_state_can_take_a_step<S: Single>(
    dict: Map<Seq<char>, TensorModel<S>>,
    layout: Layout,
)
    requires
        restored(dict, layout) is Ok,
    ensures
        counted(restored(dict, layout)->Ok_0.step_count) is Ok,
{
}

/// The slots that a step works on.
pub(crate) fn start<S, C: Copy>(
    slots: &Vec<Slot<C>>,
    pairs: &[(&Tensor<S>, &Tensor<S>)],
    blank: C,
) -> (r: Vec<Slot<C>>)
    ensures
        slot_models(r@) == started(slot_models(slots@), inputs(pairs@), blank),
{
    let ghost expected = started(slot_models(slots@), inputs(pairs@), blank);
    let mut out: Vec<Slot<C>> = Vec::new();
    let mut i: usize = 0;
    if slots.len() == 0 {
        while i < pairs.len()
            invariant
                expected == fresh_slots(inputs(pairs@), blank),
                i <= pairs@.len(),
                out@.len() == i,
                forall|k: int| 0 <= k < i ==> (#[trigger] out@[k])@ == expected[k],
            decreases pairs@.len() - i,
        {
            let param = pairs[i].0;
            let data: &[S] = param.as_slice();
            out.push(
                Slot { shape: copied(param.shape()), cells: repeated(blank, data.len()) },
            );
            assert(out@[i as int]@ =~= expected[i as int]);
            i = i + 1;
        }
    } else {
        while i < slots.len()
            invariant
                expected == slot_models(slots@),
                i <= slots@.len(),
                out@.len() == i,
                forall|k: int| 0 <= k < i ==> (#[trigger] out@[k])@ == expected[k],
            decreases slots@.len() - i,
        {
            let slot: &Slot<C> = &slots[i];
            proof {
                use_type_invariant(slot);
            }
            out.push(
                Slot {
                    shape: copied(slot.shape.as_slice()),
                    cells: copied(slot.cells.as_slice()),
                },
            );
            assert(out@[i as int]@ =~= expected[i as int]);
            i = i + 1;
        }
    }
    assert(slot_models(out@) =~= expected);
    out
}

fn advance_slot<S: Real, C: Cell<S>, R: Rule<S, C>>(
    rule: &R,
    param: &Tensor<S>,
    grad: &Tensor<S>,
    slot: &Slot<C>,
) -> (r: (Tensor<S>, Slot<C>))
    requires
        param@.shape == slot@.shape,
        grad@.shape == param@.shape,
    ensures
        r.0@ == moved_param(*rule, Pair { param: param@, grad: grad@ }, slot@),
        r.1@ == next_slot(*rule, Pair { param: param@, grad: grad@ }, slot@),
{
    proof {
        use_type_invariant(slot);
    }
    let p: &[S] = param.as_slice();
    let g: &[S] = grad.as_slice();
    let mut data: Vec<S> = Vec::new();
    let mut cells: Vec<C> = Vec::new();
    let mut k: usize = 0;
    while k < p.len()
        invariant
            p@.len() == g@.len(),
            p@.len() == slot.cells@.len(),
            k <= p@.len(),
            data@.len() == k,
            cells@.len() == k,
            forall|i: int|
                0 <= i < k ==> #[trigger] data@[i] == rule.moved(p@[i], g@[i], slot.cells@[i]),
            forall|i: int|
                0 <= i < k ==> #[trigger] cells@[i] == rule.next(p@[i], g@[i], slot.cells@[i]),
        decreases p@.len() - k,
    {
        let (value, cell) = rule.apply(p[k], g[k], slot.cells[k]);
        data.push(value);
        cells.push(cell);
        k = k + 1;
    }
    let moved: Tensor<S> = with_shape(param.shape(), data);
    let next: Slot<C> = Slot { shape: copied(slot.shape.as_slice()), cells };
    assert(moved@ =~= moved_param(*rule, Pair { param: param@, grad: grad@ }, slot@));
    assert(next@ =~= next_slot(*rule, Pair { param: param@, grad: grad@ }, slot@));
    (moved, next)
}

/// Applies the rule of each slot to the elements of its parameter.
pub(crate) fn advance<S: Real, C: Cell<S>, R: Rule<S, C>>(
    rules: &Vec<R>,
    pairs: &[(&Tensor<S>, &Tensor<S>)],
    slots: &Vec<Slot<C>>,
) -> (r: (Vec<Tensor<S>>, Vec<Slot<C>>))
    requires
        aligned(inputs(pairs@), slot_models(slots@)),
        rules@.len() == pairs@.len(),
    ensures
        models(r.0@) == moved_params(rules@, inputs(pairs@), slot_models(slots@)),
        slot_models(r.1@) == next_slots(rules@, inputs(pairs@), slot_models(slots@)),
{
    let ghost all = inputs(pairs@);
    let ghost before = slot_models(slots@);
    let mut out: Vec<Tensor<S>> = Vec::new();
    let mut next: Vec<Slot<C>> = Vec::new();
    let mut i: usize = 0;
    while i < pairs.len()
        invariant
            all == inputs(pairs@),
            before == slot_models(slots@),
            aligned(all, before),
            rules@.len() == pairs@.len(),
            i <= pairs@.len(),
            out@.len() == i,
            next@.len() == i,
            forall|k: int|
                0 <= k < i ==> (#[trigger] out@[k])@ == moved_param(rules@[k], all[k], before[k]),
            forall|k: int|
                0 <= k < i ==> (#[trigger] next@[k])@ == next_slot(rules@[k], all[k], before[k]),
        decreases pairs@.len() - i,
    {
        let (param, grad) = (pairs[i].0, pairs[i].1);
        assert(all[i as int] == Pair { param: param@, grad: grad@ });
        assert(before[i as int] == slots@[i as int]@);
        let (tensor, slot) = advance_slot(&rules[i], param, grad, &slots[i]);
        out.push(tensor);
        next.push(slot);
        i = i + 1;
    }
    assert(models(out@) =~= moved_params(rules@, all, before));
    assert(slot_models(next@) =~= next_slots(rules@, all, before));
    (out, next)
}

/// The buffers of a slot.
pub open spec fn slot_data<S: Real, C: Cell<S>>(slot: SlotModel<C>) -> SlotData<S> {
    SlotData {
        shape: slot.shape,
        buffers: Seq::new(
            C::width(),
            |j: int| Seq::new(slot.cells.len(), |k: int| slot.cells[k].part(j)),
        ),
    }
}

/// The buffers of all slots.
pub open spec fn slots_data<S: Real, C: Cell<S>>(slots: Seq<SlotModel<C>>) -> Seq<SlotData<S>> {
    slots.map_values(|s: SlotModel<C>| slot_data::<S, C>(s))
}

fn export_slot<S: Real, C: Cell<S>>(slot: &Slot<C>) -> (r: DecodedSlot<S>)
    ensures
        r@ == slot_data::<S, C>(slot@),
        r.wf(),
        r.buffers@.len() == C::width(),
{
    proof {
        use_type_invariant(slot);
    }
    let ghost expected = slot_data::<S, C>(slot@);
    let mut buffers: Vec<Vec<S>> = Vec::new();
    let mut j: usize = 0;
    while j < C::buffers()
        invariant
            expected == slot_data::<S, C>(slot@),
            slot@.cells == slot.cells@,
            j <= C::width(),
            buffers@.len() == j,
            forall|i: int| 0 <= i < j ==> (#[trigger] buffers@[i])@ == expected.buffers[i],
        decreases C::width() - j,
    {
        let mut buffer: Vec<S> = Vec::new();
        let mut k: usize = 0;
        while k < slot.cells.len()
            invariant
                j < C::width(),
                k <= slot.cells@.len(),
                buffer@.len() == k,
                forall|i: int| 0 <= i < k ==> buffer@[i] == slot.cells@[i].part(j as int),
            decreases slot.cells@.len() - k,
        {
            buffer.push(slot.cells[k].get(j));
            k = k + 1;
        }
        assert(buffer@ =~= expected.buffers[j as int]);
        buffers.push(buffer);
        j = j + 1;
    }
    let r = DecodedSlot { shape: copied(slot.shape.as_slice()), buffers };
    assert(r@ =~= expected) by {
        assert(r@.buffers =~= expected.buffers);
    }
    assert forall|i: int| 0 <= i < r.buffers@.len() implies (#[trigger] r.buffers@[i])@.len()
        == count(r.shape@) by {
        assert(r.buffers@[i]@ == expected.buffers[i]);
    }
    r
}

/// The buffers of all slots.
pub(crate) fn export_slots<S: Real, C: Cell<S>>(slots: &Vec<Slot<C>>) -> (r: Vec<DecodedSlot<S>>)
    ensures
        r@.map_values(|s: DecodedSlot<S>| s@) == slots_data::<S, C>(slot_models(slots@)),
        forall|i: int|
            0 <= i < r@.len() ==> (#[trigger] r@[i]).wf() && r@[i].buffers@.len() == C::width(),
{
    let mut out: Vec<DecodedSlot<S>> = Vec::new();
    let mut i: usize = 0;
    while i < slots.len()
        invariant
            i <= slots@.len(),
            out@.len() == i,
            forall|k: int|
                0 <= k < i ==> (#[trigger] out@[k])@ == slot_data::<S, C>(slots@[k]@)
                    && out@[k].wf() && out@[k].buffers@.len() == C::width(),
        decreases slots@.len() - i,
    {
        out.push(export_slot(&slots[i]));
        i = i + 1;
    }
    assert(out@.map_values(|s: DecodedSlot<S>| s@) =~= slots_data::<S, C>(slot_models(slots@)));
    out
}

fn import_slot<S: Real, C: Cell<S>>(decoded: &DecodedSlot<S>) -> (r: Slot<C>)
    requires
        decoded.wf(),
        decoded.buffers@.len() == C::width(),
        C::width() > 0,
    ensures
        slot_data::<S, C>(r@) == decoded@,
{
    let first: &Vec<S> = &decoded.buffers[0];
    let n: usize = first.len();
    assert(decoded.buffers@[0]@.len() == count(decoded.shape@));
    let mut cells: Vec<C> = Vec::new();
    let mut k: usize = 0;
    while k < n
        invariant
            decoded.wf(),
            decoded.buffers@.len() == C::width(),
            n == count(decoded.shape@),
            k <= n,
            cells@.len() == k,
            forall|i: int|
                0 <= i < k ==> #[trigger] cells@[i] == C::of_parts(
                    Seq::new(C::width(), |j: int| decoded.buffers@[j]@[i]),
                ),
        decreases n - k,
    {
        cells.push(C::gather(&decoded.buffers, k));
        k = k + 1;
    }
    let r = Slot { shape: copied(decoded.shape.as_slice()), cells };
    assert(slot_data::<S, C>(r@) =~= decoded@) by {
        let data = slot_data::<S, C>(r@);
        assert forall|j: int| 0 <= j < C::width() implies data.buffers[j] == decoded@.buffers[j] by {
            assert(decoded.buffers@[j]@.len() == n);
            assert forall|i: int| 0 <= i < n implies data.buffers[j][i] == decoded@.buffers[j][i] by {
                let parts = Seq::new(C::width(), |l: int| decoded.buffers@[l]@[i]);
                C::parts_are_kept(parts, j);
                assert(cells@[i] == C::of_parts(parts));
            }
            assert(data.buffers[j] =~= decoded@.buffers[j]);
        }
        assert(data.buffers =~= decoded@.buffers);
    }
    r
}

/// Slots with the given buffers.
pub(crate) fn import_slots<S: Real, C: Cell<S>>(decoded: &Vec<DecodedSlot<S>>) -> (r: Vec<Slot<C>>)
    requires
        forall|i: int|
            0 <= i < decoded@.len() ==> (#[trigger] decoded@[i]).wf()
                && decoded@[i].buffers@.len() == C::width(),
        C::width() > 0,
    ensures
        slots_data::<S, C>(slot_models(r@)) == decoded@.map_values(|s: DecodedSlot<S>| s@),
{
    let mut out: Vec<Slot<C>> = Vec::new();
    let mut i: usize = 0;
    while i < decoded.len()
        invariant
            forall|k: int|
                0 <= k < decoded@.len() ==> (#[trigger] decoded@[k]).wf()
                    && decoded@[k].buffers@.len() == C::width(),
            C::width() > 0,
            i <= decoded@.len(),
            out@.len() == i,
            forall|k: int|
                0 <= k < i ==> slot_data::<S, C>((#[trigger] out@[k])@) == decoded@[k]@,
        decreases decoded@.len() - i,
    {
        out.push(import_slot(&decoded[i]));
        i = i + 1;
    }
    assert(slots_data::<S, C>(slot_models(out@)) =~= decoded@.map_values(
        |s: DecodedSlot<S>| s@,
    ));
    out
}

/// Slots with the same buffers are equal.
pub proof fn buffers_determine_slots<S: Real, C: Cell<S>>(
    a: Seq<SlotModel<C>>,
    b: Seq<SlotModel<C>>,
)
    requires
        slots_data::<S, C>(a) == slots_data::<S, C>(b),
        C::width() > 0,
    ensures
        a == b,
{
    let (x, y) = (slots_data::<S, C>(a), slots_data::<S, C>(b));
    assert(x.len() == a.len() && y.len() == b.len());
    assert forall|i: int| 0 <= i < a.len() implies a[i] == b[i] by {
        assert(x[i] == slot_data::<S, C>(a[i]));
        assert(y[i] == slot_data::<S, C>(b[i]));
        assert(x[i].buffers[0].len() == a[i].cells.len());
        assert(y[i].buffers[0].len() == b[i].cells.len());
        assert forall|k: int| 0 <= k < a[i].cells.len() implies a[i].cells[k] == b[i].cells[k] by {
            let p = Seq::new(C::width(), |j: int| a[i].cells[k].part(j));
            let q = Seq::new(C::width(), |j: int| b[i].cells[k].part(j));
            assert forall|j: int| 0 <= j < C::width() implies p[j] == q[j] by {
                assert(x[i].buffers[j][k] == a[i].cells[k].part(j));
                assert(y[i].buffers[j][k] == b[i].cells[k].part(j));
            }
            assert(p =~= q);
            a[i].cells[k].parts_determine_the_cell();
            b[i].cells[k].parts_determine_the_cell();
        }
        assert(a[i].cells =~= b[i].cells);
    }
    assert(a =~= b);
}

/// A step keeps the shapes of the parameters and of the slots, and what becomes of an
/// element and of its cell depends on nothing but that element, its gradient, its cell and
/// the rule of its slot.
pub proof fn elements_step_on_their_own<S: Real, C: Cell<S>, R: Rule<S, C>>(
    rules: Seq<R>,
    pairs: Seq<Pair<S>>,
    slots: Seq<SlotModel<C>>,
    other_rules: Seq<R>,
    other_pairs: Seq<Pair<S>>,
    other_slots: Seq<SlotModel<C>>,
    i: int,
    k: int,
)
    requires
        0 <= i < pairs.len(),
        i < other_pairs.len(),
        0 <= k < pairs[i].param.data.len(),
        k < other_pairs[i].param.data.len(),
        k < slots[i].cells.len(),
        k < other_slots[i].cells.len(),
        rules[i] == other_rules[i],
        pairs[i].param.data[k] == other_pairs[i].param.data[k],
        pairs[i].grad.data[k] == other_pairs[i].grad.data[k],
        slots[i].cells[k] == other_slots[i].cells[k],
    ensures
        moved_params(rules, pairs, slots).len() == pairs.len(),
        moved_params(rules, pairs, slots)[i].shape == pairs[i].param.shape,
        moved_params(rules, pairs, slots)[i].data.len() == pairs[i].param.data.len(),
        next_slots(rules, pairs, slots)[i].shape == slots[i].shape,
        next_slots(rules, pairs, slots)[i].cells.len() == slots[i].cells.len(),
        moved_params(rules, pairs, slots)[i].data[k] == moved_params(
            other_rules,
            other_pairs,
            other_slots,
        )[i].data[k],
        next_slots(rules, pairs, slots)[i].cells[k] == next_slots(
            other_rules,
            other_pairs,
            other_slots,
        )[i].cells[k],
{
}

/// Slots that have not been made yet are made with the shapes of the parameters and the
/// same cell everywhere, and those that have been are kept.
pub proof fn slots_are_made_once<S, C>(
    slots: Seq<SlotModel<C>>,
    pairs: Seq<Pair<S>>,
    blank: C,
    i: int,
    k: int,
)
    requires
        0 <= i < pairs.len(),
        0 <= k < pairs[i].param.data.len(),
    ensures
        slots.len() > 0 ==> started(slots, pairs, blank) == slots,
        slots.len() == 0 ==> {
            &&& started(slots, pairs, blank).len() == pairs.len()
            &&& started(slots, pairs, blank)[i].shape == pairs[i].param.shape
            &&& started(slots, pairs, blank)[i].cells.len() == pairs[i].param.data.len()
            &&& started(slots, pairs, blank)[i].cells[k] == blank
        },
{
}

} // verus!
