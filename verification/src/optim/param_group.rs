//! Learning rates and weight decays for groups of parameters.
//!
//! A group names parameters by their slots: their positions in the lists that the
//! caller hands to a step. A slot that no group names has the learning rate and
//! the weight decay of the optimizer's configuration, so a step without groups is
//! an ordinary step.
use crate::error::{AutodiffError, ErrorModel};
use crate::number::{Single, is_non_negative, non_negative};
use crate::optim::slots::{Pair, inputs, models};
use crate::tensor::{Tensor, TensorModel};
use crate::text::{followed_by, followed_by_count, joined, numeral, numeral_text};
use vstd::prelude::*;

verus! {

/// Parameters with a learning rate and a weight decay of their own.
#[non_exhaustive]
#[derive(Debug, Clone, PartialEq)]
pub struct ParamGroup<S> {
    /// The slots of the parameters.
    pub params: Vec<usize>,
    pub lr: S,
    pub weight_decay: S,
}

impl<S> ParamGroup<S> {
    /// A group with the given slots. Nothing is checked before the group is used.
    pub fn new(params: Vec<usize>, lr: S, weight_decay: S) -> (r: ParamGroup<S>)
        ensures
            r == (ParamGroup { params, lr, weight_decay }),
    {
        ParamGroup { params, lr, weight_decay }
    }
}

/// The learning rate and the weight decay of one slot.
#[derive(Debug, Clone, Copy)]
pub struct SlotHparams<S> {
    pub lr: S,
    pub weight_decay: S,
}

/// The error of a step of optimizer `who` with other numbers of parameters and of
/// gradients.
pub open spec fn lengths_differ(who: Seq<char>, params: nat, grads: nat) -> ErrorModel {
    ErrorModel::InvalidArgument(
        who + "::step_with_groups: params.len() ("@ + numeral(params) + ") != grads.len() ("@
            + numeral(grads) + ")"@,
    )
}

/// The error of a step of optimizer `who` that is refused for group number `g`.
pub open spec fn group_refused(who: Seq<char>, g: int, reason: &str) -> ErrorModel {
    ErrorModel::InvalidArgument(
        who + "::step_with_groups: param_groups["@ + numeral(g as nat) + reason@,
    )
}

fn refuse_group(who: &str, g: usize, reason: &str) -> (r: AutodiffError)
    ensures
        r@ == group_refused(who@, g as int, reason),
{
    let mut text: String = joined(who, "::step_with_groups: param_groups[");
    text.append(numeral_text(g).as_str());
    text.append(reason);
    AutodiffError::InvalidArgument(text)
}

/// The error of a step of optimizer `who` that is refused for a number of group `g`.
pub open spec fn group_number_refused<S: Single>(
    who: Seq<char>,
    g: int,
    reason: &str,
    number: S,
) -> ErrorModel {
    ErrorModel::InvalidArgument(
        who + "::step_with_groups: param_groups["@ + numeral(g as nat) + reason@ + number.shown(),
    )
}

fn refuse_group_number<S: Single>(who: &str, g: usize, reason: &str, number: S) -> (r:
    AutodiffError)
    ensures
        r@ == group_number_refused(who@, g as int, reason, number),
{
    let text: String = joined(who, "::step_with_groups: param_groups[");
    let text: String = followed_by(followed_by_count(text, g), reason);
    AutodiffError::InvalidArgument(followed_by(text, number.show().as_str()))
}

/// The error of a step of optimizer `who` where group `g` names a slot that there
/// is not.
pub open spec fn slot_missing(who: Seq<char>, g: int, slot: usize, slots: usize) -> ErrorModel {
    ErrorModel::InvalidArgument(
        who + "::step_with_groups: param_groups["@ + numeral(g as nat)
            + "] references slot index "@ + numeral(slot as nat) + ", but only "@ + numeral(
            slots as nat,
        ) + " slot(s) were passed to step_with_groups"@,
    )
}

fn refuse_slot(who: &str, g: usize, slot: usize, slots: usize) -> (r: AutodiffError)
    ensures
        r@ == slot_missing(who@, g as int, slot, slots),
{
    let text: String = joined(who, "::step_with_groups: param_groups[");
    let text: String = followed_by(followed_by_count(text, g), "] references slot index ");
    let text: String = followed_by(followed_by_count(text, slot), ", but only ");
    AutodiffError::InvalidArgument(
        followed_by(
            followed_by_count(text, slots),
            " slot(s) were passed to step_with_groups",
        ),
    )
}

/// The error of a step of optimizer `who` where groups `before` and `g` name the
/// same slot.
pub open spec fn slot_taken(who: Seq<char>, slot: usize, before: int, g: int) -> ErrorModel {
    ErrorModel::InvalidArgument(
        who + "::step_with_groups: slot index "@ + numeral(slot as nat)
            + " appears in both param_groups["@ + numeral(before as nat) + "] and param_groups["@
            + numeral(g as nat) + "] (a slot may belong to at most one group)"@,
    )
}

fn refuse_taken(who: &str, slot: usize, before: usize, g: usize) -> (r: AutodiffError)
    ensures
        r@ == slot_taken(who@, slot, before as int, g as int),
{
    let text: String = joined(who, "::step_with_groups: slot index ");
    let text: String = followed_by(
        followed_by_count(text, slot),
        " appears in both param_groups[",
    );
    let text: String = followed_by(followed_by_count(text, before), "] and param_groups[");
    AutodiffError::InvalidArgument(
        followed_by(
            followed_by_count(text, g),
            "] (a slot may belong to at most one group)",
        ),
    )
}

/// The group before `g` that names a slot, or `g` where none does.
pub open spec fn naming_group<S>(groups: Seq<ParamGroup<S>>, g: int, slot: usize) -> int {
    if exists|i: int| 0 <= i < g && #[trigger] names(groups[i], slot as int) {
        choose|i: int| 0 <= i < g && #[trigger] names(groups[i], slot as int)
    } else {
        g
    }
}

/// Whether slot `slot` is named before position `k` of group `g`.
pub open spec fn named_before<S>(groups: Seq<ParamGroup<S>>, g: int, k: int, slot: usize) -> bool {
    ||| exists|i: int, j: int|
        0 <= i < g && 0 <= j < groups[i].params@.len() && #[trigger] groups[i].params@[j] == slot
    ||| exists|j: int| 0 <= j < k && #[trigger] groups[g].params@[j] == slot
}

/// Why one of the slots of group `g` is refused, looking from position `k` on.
pub open spec fn slot_error<S>(
    who: Seq<char>,
    groups: Seq<ParamGroup<S>>,
    slots: usize,
    g: int,
    k: int,
) -> Option<ErrorModel>
    decreases groups[g].params@.len() - k,
{
    let params = groups[g].params@;
    if k >= params.len() {
        None
    } else if params[k] >= slots {
        Some(slot_missing(who, g, params[k], slots))
    } else if named_before(groups, g, k, params[k]) {
        Some(slot_taken(who, params[k], naming_group(groups, g, params[k]), g))
    } else {
        slot_error(who, groups, slots, g, k + 1)
    }
}

/// Why the groups are refused, looking from group `g` on.
pub open spec fn group_error<S: Single>(
    who: Seq<char>,
    groups: Seq<ParamGroup<S>>,
    slots: usize,
    g: int,
) -> Option<ErrorModel>
    decreases groups.len() - g,
{
    if g >= groups.len() {
        None
    } else if groups[g].params@.len() == 0 {
        Some(group_refused(who, g, "].params is empty"))
    } else if !non_negative(groups[g].lr) {
        Some(
            group_number_refused(who, g, "].lr must be finite and >= 0.0, got ", groups[g].lr),
        )
    } else if !non_negative(groups[g].weight_decay) {
        Some(
            group_number_refused(
                who,
                g,
                "].weight_decay must be finite and >= 0.0, got ",
                groups[g].weight_decay,
            ),
        )
    } else if slot_error(who, groups, slots, g, 0) is Some {
        slot_error(who, groups, slots, g, 0)
    } else {
        group_error(who, groups, slots, g + 1)
    }
}

/// Whether a group names a slot.
pub open spec fn names<S>(group: ParamGroup<S>, slot: int) -> bool {
    exists|j: int| 0 <= j < group.params@.len() && #[trigger] group.params@[j] == slot
}

/// Whether one of the groups names a slot.
pub open spec fn is_named<S>(groups: Seq<ParamGroup<S>>, slot: int) -> bool {
    exists|g: int| 0 <= g < groups.len() && #[trigger] names(groups[g], slot)
}

/// The learning rate and the weight decay of a slot.
pub open spec fn hparams_of<S>(
    groups: Seq<ParamGroup<S>>,
    default: SlotHparams<S>,
    slot: int,
) -> SlotHparams<S> {
    if is_named(groups, slot) {
        let g = choose|g: int| 0 <= g < groups.len() && #[trigger] names(groups[g], slot);
        SlotHparams { lr: groups[g].lr, weight_decay: groups[g].weight_decay }
    } else {
        default
    }
}

/// The learning rates and weight decays of all slots, or why the groups are
/// refused.
pub open spec fn resolved<S: Single>(
    who: Seq<char>,
    groups: Seq<ParamGroup<S>>,
    slots: usize,
    default: SlotHparams<S>,
) -> Result<Seq<SlotHparams<S>>, ErrorModel> {
    match group_error(who, groups, slots, 0) {
        Some(e) => Err(e),
        None => Ok(Seq::new(slots as nat, |slot: int| hparams_of(groups, default, slot))),
    }
}

/// Without groups every slot has the default learning rate and weight decay.
pub proof fn without_groups_all_slots_have_the_default<S: Single>(
    who: Seq<char>,
    slots: usize,
    default: SlotHparams<S>,
)
    ensures
        resolved(who, Seq::<ParamGroup<S>>::empty(), slots, default) == Ok::<
            Seq<SlotHparams<S>>,
            ErrorModel,
        >(Seq::new(slots as nat, |slot: int| default)),
{
    let none = Seq::<ParamGroup<S>>::empty();
    assert forall|slot: int| hparams_of(none, default, slot) == default by {}
    assert(Seq::new(slots as nat, |slot: int| hparams_of(none, default, slot)) =~= Seq::new(
        slots as nat,
        |slot: int| default,
    ));
}

/// Whether slot number `slot` is named by the groups before `g` or by the first
/// `k` entries of group `g`.
spec fn claimed<S>(groups: Seq<ParamGroup<S>>, g: int, k: int, slot: int, by: int) -> bool {
    ||| 0 <= by < g && names(groups[by], slot)
    ||| by == g && exists|j: int| 0 <= j < k && #[trigger] groups[g].params@[j] == slot
}

/// `assigned` records which group has named each slot so far.
spec fn records<S>(
    groups: Seq<ParamGroup<S>>,
    g: int,
    k: int,
    assigned: Seq<Option<usize>>,
) -> bool {
    forall|slot: int, by: int|
        0 <= slot < assigned.len() ==> (#[trigger] claimed(groups, g, k, slot, by) <==> (
        assigned[slot] is Some && assigned[slot]->0 == by))
}

fn claim_slots<S: Single>(
    who: &str,
    groups: &[ParamGroup<S>],
    g: usize,
    slots: usize,
    assigned: &mut Vec<Option<usize>>,
) -> (r: Result<(), AutodiffError>)
    requires
        g < groups@.len(),
        old(assigned)@.len() == slots,
        records(groups@, g as int, 0, old(assigned)@),
    ensures
        final(assigned)@.len() == slots,
        match r {
            Ok(_) => {
                &&& slot_error(who@, groups@, slots, g as int, 0) is None
                &&& records(
                    groups@,
                    g as int,
                    groups@[g as int].params@.len() as int,
                    final(assigned)@,
                )
            },
            Err(e) => slot_error(who@, groups@, slots, g as int, 0) == Some(e@),
        },
{
    let params: &Vec<usize> = &groups[g].params;
    let mut k: usize = 0;
    while k < params.len()
        invariant
            g < groups@.len(),
            params@ == groups@[g as int].params@,
            k <= params@.len(),
            assigned@.len() == slots,
            records(groups@, g as int, k as int, assigned@),
            slot_error(who@, groups@, slots, g as int, 0) == slot_error(
                who@,
                groups@,
                slots,
                g as int,
                k as int,
            ),
        decreases params@.len() - k,
    {
        let slot: usize = params[k];
        if slot >= slots {
            return Err(refuse_slot(who, g, slot, slots));
        }
        let ghost before = assigned@;
        match assigned[slot] {
            Some(by) => {
                proof {
                    assert(claimed(groups@, g as int, k as int, slot as int, by as int));
                    if by < g {
                        let j = choose|j: int|
                            0 <= j < groups@[by as int].params@.len()
                                && #[trigger] groups@[by as int].params@[j] == slot;
                        assert(groups@[by as int].params@[j] == slot);
                    }
                    assert(named_before(groups@, g as int, k as int, slot));
                    let before = naming_group(groups@, g as int, slot);
                    if before < g {
                        assert(names(groups@[before], slot as int));
                        assert(claimed(groups@, g as int, k as int, slot as int, before));
                    } else if by < g {
                        assert(names(groups@[by as int], slot as int));
                    }
                    assert(before == by);
                }
                return Err(refuse_taken(who, slot, by, g));
            },
            None => {
                proof {
                    if named_before(groups@, g as int, k as int, slot) {
                        if exists|j: int| 0 <= j < k && #[trigger] groups@[g as int].params@[j]
                            == slot {
                            assert(claimed(groups@, g as int, k as int, slot as int, g as int));
                        } else {
                            let (i, j) = choose|i: int, j: int|
                                0 <= i < g && 0 <= j < groups@[i].params@.len()
                                    && #[trigger] groups@[i].params@[j] == slot;
                            assert(names(groups@[i], slot as int));
                            assert(claimed(groups@, g as int, k as int, slot as int, i));
                        }
                    }
                }
                assigned.set(slot, Some(g));
            },
        }
        assert(records(groups@, g as int, k + 1, assigned@)) by {
            assert forall|s: int, by: int| 0 <= s < assigned@.len() implies (
            #[trigger] claimed(groups@, g as int, k + 1, s, by) <==> (assigned@[s] is Some
                && assigned@[s]->0 == by)) by {
                assert(claimed(groups@, g as int, k as int, s, by) <==> (before[s] is Some
                    && before[s]->0 == by));
                assert(groups@[g as int].params@[k as int] == slot);
                if s == slot {
                    assert(claimed(groups@, g as int, k + 1, s, g as int));
                }
            }
        }
        k = k + 1;
    }
    Ok(())
}

/// Checks the groups and finds the learning rate and the weight decay of each
/// slot.
pub fn resolve_slot_hparams<S: Single>(
    groups: &[ParamGroup<S>],
    n_slots: usize,
    default_lr: S,
    default_wd: S,
    who: &str,
) -> (r: Result<Vec<SlotHparams<S>>, AutodiffError>)
    ensures
        match r {
            Ok(hparams) => resolved(
                who@,
                groups@,
                n_slots,
                SlotHparams { lr: default_lr, weight_decay: default_wd },
            ) == Ok::<Seq<SlotHparams<S>>, ErrorModel>(hparams@),
            Err(e) => resolved(
                who@,
                groups@,
                n_slots,
                SlotHparams { lr: default_lr, weight_decay: default_wd },
            ) == Err::<Seq<SlotHparams<S>>, _>(e@),
        },
{
    let default = SlotHparams { lr: default_lr, weight_decay: default_wd };
    let mut assigned: Vec<Option<usize>> = Vec::new();
    let mut n: usize = 0;
    while n < n_slots
        invariant
            n <= n_slots,
            assigned@.len() == n,
            forall|i: int| 0 <= i < n ==> assigned@[i] is None,
        decreases n_slots - n,
    {
        assigned.push(None);
        n = n + 1;
    }
    let mut g: usize = 0;
    while g < groups.len()
        invariant
            g <= groups@.len(),
            assigned@.len() == n_slots,
            records(groups@, g as int, 0, assigned@),
            group_error(who@, groups@, n_slots, 0) == group_error(who@, groups@, n_slots, g as int),
        decreases groups@.len() - g,
    {
        if groups[g].params.len() == 0 {
            return Err(refuse_group(who, g, "].params is empty"));
        }
        if !is_non_negative(groups[g].lr) {
            return Err(
                refuse_group_number(
                    who,
                    g,
                    "].lr must be finite and >= 0.0, got ",
                    groups[g].lr,
                ),
            );
        }
        if !is_non_negative(groups[g].weight_decay) {
            return Err(
                refuse_group_number(
                    who,
                    g,
                    "].weight_decay must be finite and >= 0.0, got ",
                    groups[g].weight_decay,
                ),
            );
        }
        match claim_slots(who, groups, g, n_slots, &mut assigned) {
            Err(e) => {
                return Err(e);
            },
            Ok(_) => {},
        }
        assert(records(groups@, g + 1, 0, assigned@)) by {
            assert forall|s: int, by: int| 0 <= s < assigned@.len() implies (
            #[trigger] claimed(groups@, g + 1, 0, s, by) <==> (assigned@[s] is Some
                && assigned@[s]->0 == by)) by {
                assert(claimed(
                    groups@,
                    g as int,
                    groups@[g as int].params@.len() as int,
                    s,
                    by,
                ) <==> (assigned@[s] is Some && assigned@[s]->0 == by));
            }
        }
        g = g + 1;
    }
    let mut out: Vec<SlotHparams<S>> = Vec::new();
    let mut slot: usize = 0;
    while slot < n_slots
        invariant
            g == groups@.len(),
            assigned@.len() == n_slots,
            records(groups@, g as int, 0, assigned@),
            slot <= n_slots,
            out@.len() == slot,
            forall|i: int|
                0 <= i < slot ==> #[trigger] out@[i] == hparams_of(groups@, default, i),
        decreases n_slots - slot,
    {
        match assigned[slot] {
            Some(by) => {
                assert(claimed(groups@, g as int, 0, slot as int, by as int));
                proof {
                    let chosen = choose|h: int|
                        0 <= h < groups@.len() && #[trigger] names(groups@[h], slot as int);
                    assert(claimed(groups@, g as int, 0, slot as int, chosen));
                }
                out.push(
                    SlotHparams { lr: groups[by].lr, weight_decay: groups[by].weight_decay },
                );
            },
            None => {
                assert forall|h: int| 0 <= h < groups@.len() implies !(#[trigger] names(
                    groups@[h],
                    slot as int,
                )) by {
                    assert(claimed(groups@, g as int, 0, slot as int, h) <==> false);
                }
                out.push(default);
            },
        }
        slot = slot + 1;
    }
    assert(out@ =~= Seq::new(n_slots as nat, |i: int| hparams_of(groups@, default, i)));
    Ok(out)
}

/// Parameters and gradients that belong together by position.
pub open spec fn zipped<'a, S>(params: Seq<&'a Tensor<S>>, grads: Seq<&'a Tensor<S>>) -> Seq<
    Pair<S>,
> {
    Seq::new(params.len(), |i: int| Pair { param: params[i]@, grad: grads[i]@ })
}

pub(crate) fn zip_params_grads<'a, S>(
    params: &[&'a Tensor<S>],
    grads: &[&'a Tensor<S>],
) -> (r: Vec<(&'a Tensor<S>, &'a Tensor<S>)>)
    requires
        params@.len() == grads@.len(),
    ensures
        inputs(r@) == zipped(params@, grads@),
        r@.len() == params@.len(),
{
    let mut out: Vec<(&'a Tensor<S>, &'a Tensor<S>)> = Vec::new();
    let mut i: usize = 0;
    while i < params.len()
        invariant
            params@.len() == grads@.len(),
            i <= params@.len(),
            out@.len() == i,
            forall|k: int| 0 <= k < i ==> #[trigger] out@[k] == (params@[k], grads@[k]),
        decreases params@.len() - i,
    {
        out.push((params[i], grads[i]));
        i = i + 1;
    }
    assert(inputs(out@) =~= zipped(params@, grads@));
    out
}

pub(crate) fn check_len_matches<S>(
    who: &str,
    params: &[&Tensor<S>],
    grads: &[&Tensor<S>],
) -> (r: Result<(), AutodiffError>)
    ensures
        r is Ok <==> params@.len() == grads@.len(),
        r is Err ==> r->Err_0@ == lengths_differ(who@, params@.len(), grads@.len()),
{
    if params.len() != grads.len() {
        let text: String = joined(who, "::step_with_groups: params.len() (");
        let text: String = followed_by(
            followed_by_count(text, params.len()),
            ") != grads.len() (",
        );
        return Err(
            AutodiffError::InvalidArgument(
                followed_by(followed_by_count(text, grads.len()), ")"),
            ),
        );
    }
    Ok(())
}

/// What a step answers: the parameters after the step and the optimizer's state,
/// or an error that leaves the state as it was.
pub open spec fn answers<S, M>(
    r: Result<Vec<Tensor<S>>, AutodiffError>,
    expected: Result<(Seq<TensorModel<S>>, M), ErrorModel>,
    before: M,
    after: M,
) -> bool {
    match r {
        Ok(params) => expected == Ok::<_, ErrorModel>((models(params@), after)),
        Err(e) => expected == Err::<(Seq<TensorModel<S>>, M), _>(e@) && after == before,
    }
}

/// What a step of an optimizer does where each slot has a learning rate and a
/// weight decay of its own.
pub trait SlotwiseStep<S: Single>: View + Sized {
    /// The name that errors call the optimizer by.
    spec fn name() -> Seq<char>;

    /// The learning rate and the weight decay of a slot that no group names.
    spec fn default_hparams(state: Self::V) -> SlotHparams<S>;

    /// A step with the given learning rate and weight decay for each slot.
    spec fn stepped(
        state: Self::V,
        pairs: Seq<Pair<S>>,
        hparams: Seq<SlotHparams<S>>,
    ) -> Result<(Seq<TensorModel<S>>, Self::V), ErrorModel>;
}

/// An optimizer that can take a step in which groups of parameters have learning
/// rates and weight decays of their own.
pub trait ParamGroupStep<S: Single>: SlotwiseStep<S> {
    /// One step in which slots that a group names have the learning rate and the
    /// weight decay of that group.
    fn step_with_groups(
        &mut self,
        params: &[&Tensor<S>],
        grads: &[&Tensor<S>],
        groups: &[ParamGroup<S>],
    ) -> (r: Result<Vec<Tensor<S>>, AutodiffError>)
        ensures
            answers(
                r,
                grouped_step::<S, Self>(old(self)@, params@, grads@, groups@),
                old(self)@,
                final(self)@,
            ),
    ;
}

/// What [`ParamGroupStep::step_with_groups`] does.
pub open spec fn grouped_step<'a, S: Single, O: SlotwiseStep<S>>(
    state: O::V,
    params: Seq<&'a Tensor<S>>,
    grads: Seq<&'a Tensor<S>>,
    groups: Seq<ParamGroup<S>>,
) -> Result<(Seq<TensorModel<S>>, O::V), ErrorModel> {
    if params.len() != grads.len() {
        Err(lengths_differ(O::name(), params.len(), grads.len()))
    } else {
        match resolved(O::name(), groups, params.len() as usize, O::default_hparams(state)) {
            Err(e) => Err(e),
            Ok(hparams) => O::stepped(state, zipped(params, grads), hparams),
        }
    }
}

/// A step without groups is a step in which every slot has the default learning
/// rate and weight decay.
pub proof fn step_without_groups_is_a_step<'a, S: Single, O: SlotwiseStep<S>>(
    state: O::V,
    params: Seq<&'a Tensor<S>>,
    grads: Seq<&'a Tensor<S>>,
)
    requires
        params.len() == grads.len(),
        params.len() <= usize::MAX,
    ensures
        grouped_step::<S, O>(state, params, grads, Seq::empty()) == O::stepped(
            state,
            zipped(params, grads),
            Seq::new(params.len(), |i: int| O::default_hparams(state)),
        ),
{
    without_groups_all_slots_have_the_default(
        O::name(),
        params.len() as usize,
        O::default_hparams(state),
    );
}

proof fn accepted_slots_are_new<S>(
    who: Seq<char>,
    groups: Seq<ParamGroup<S>>,
    slots: usize,
    g: int,
    k: int,
)
    requires
        0 <= k,
        slot_error(who, groups, slots, g, k) is None,
    ensures
        forall|j: int|
            k <= j < groups[g].params@.len() ==> #[trigger] groups[g].params@[j] < slots
                && !named_before(groups, g, j, groups[g].params@[j]),
    decreases groups[g].params@.len() - k,
{
    if k < groups[g].params@.len() {
        accepted_slots_are_new(who, groups, slots, g, k + 1);
    }
}

proof fn accepted_groups_are_accepted_one_by_one<S: Single>(
    who: Seq<char>,
    groups: Seq<ParamGroup<S>>,
    slots: usize,
    first: int,
    g: int,
)
    requires
        first <= g < groups.len(),
        group_error(who, groups, slots, first) is None,
    ensures
        slot_error(who, groups, slots, g, 0) is None,
        non_negative(groups[g].lr),
        non_negative(groups[g].weight_decay),
        groups[g].params@.len() > 0,
    decreases g - first,
{
    if first < g {
        accepted_groups_are_accepted_one_by_one(who, groups, slots, first + 1, g);
    }
}

proof fn accepted_groups_share_no_slot<S: Single>(
    who: Seq<char>,
    groups: Seq<ParamGroup<S>>,
    slots: usize,
    g: int,
    h: int,
    slot: int,
)
    requires
        group_error(who, groups, slots, 0) is None,
        0 <= g <= h < groups.len(),
        names(groups[g], slot),
        names(groups[h], slot),
    ensures
        g == h,
{
    accepted_groups_are_accepted_one_by_one(who, groups, slots, 0, h);
    accepted_slots_are_new(who, groups, slots, h, 0);
    let i = choose|i: int| 0 <= i < groups[g].params@.len() && groups[g].params@[i] == slot;
    let j = choose|j: int| 0 <= j < groups[h].params@.len() && groups[h].params@[j] == slot;
    let taken = groups[h].params@[j];
    assert(groups[g].params@[i] == taken);
    assert(g < h ==> named_before(groups, h, j, taken));
}

/// A slot that a group names has the learning rate and the weight decay of that group,
/// and a slot that none names has the default. Both are finite and not negative.
pub proof fn slots_have_the_rates_of_their_group<S: Single>(
    who: Seq<char>,
    groups: Seq<ParamGroup<S>>,
    slots: usize,
    default: SlotHparams<S>,
    g: int,
    slot: int,
)
    requires
        resolved(who, groups, slots, default) is Ok,
        0 <= slot < slots,
    ensures
        resolved(who, groups, slots, default) matches Ok(hparams) && {
            &&& hparams.len() == slots
            &&& 0 <= g < groups.len() && names(groups[g], slot) ==> {
                &&& hparams[slot].lr == groups[g].lr
                &&& hparams[slot].weight_decay == groups[g].weight_decay
                &&& non_negative(hparams[slot].lr)
                &&& non_negative(hparams[slot].weight_decay)
            }
            &&& (forall|h: int| 0 <= h < groups.len() ==> !names(groups[h], slot))
                ==> hparams[slot] == default
        },
{
    if 0 <= g < groups.len() && names(groups[g], slot) {
        let h = choose|h: int| 0 <= h < groups.len() && #[trigger] names(groups[h], slot);
        if g <= h {
            accepted_groups_share_no_slot(who, groups, slots, g, h, slot);
        } else {
            accepted_groups_share_no_slot(who, groups, slots, h, g, slot);
        }
        accepted_groups_are_accepted_one_by_one(who, groups, slots, 0, g);
    }
}

} // verus!
