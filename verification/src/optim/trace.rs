//! Computations that ask an objective function for values on the way.
//!
//! Such a computation is modelled as a function from the answers that it will
//! get, in their order, to the queries that it makes and to its result.
use crate::error::{AutodiffError, ErrorModel};
use crate::optim::slots::models;
use crate::tensor::{Tensor, TensorModel};
use vstd::prelude::*;

verus! {

/// What an objective function answers: the loss and the gradients, or an error.
pub type Reply<S> = Result<(S, Seq<TensorModel<S>>), ErrorModel>;

/// A computation, as a function of the answers that it gets.
pub type Computation<S, R> = spec_fn(Seq<Reply<S>>) -> Trace<S, R>;

/// One evaluation of an objective function.
#[verifier::ext_equal]
pub struct Evaluation<S> {
    pub query: Seq<TensorModel<S>>,
    pub reply: Reply<S>,
}

/// The queries that a computation makes, and its result.
#[verifier::ext_equal]
pub struct Trace<S, R> {
    pub queries: Seq<Seq<TensorModel<S>>>,
    pub result: Result<R, ErrorModel>,
}

/// The answer that a returned value stands for.
pub open spec fn reply_of<S>(returned: Result<(S, Vec<Tensor<S>>), AutodiffError>) -> Reply<S> {
    match returned {
        Ok((loss, grads)) => Ok((loss, models(grads@))),
        Err(e) => Err(e@),
    }
}

/// A function from parameters to the loss and the gradients there, which keeps a
/// record of its evaluations.
pub trait Objective<S>: Sized {
    /// Whether the function can be called with any parameters.
    spec fn ready(self) -> bool;

    /// Whether the function may answer as an evaluation says.
    spec fn may_answer(self, evaluation: Evaluation<S>) -> bool;

    /// The evaluations so far, in their order.
    spec fn record(self) -> Seq<Evaluation<S>>;

    fn call(&mut self, params: &[Tensor<S>]) -> (r: Result<(S, Vec<Tensor<S>>), AutodiffError>)
        requires
            old(self).ready(),
        ensures
            final(self).ready(),
            final(self).record() == old(self).record().push(
                Evaluation { query: models(params@), reply: reply_of(r) },
            ),
            old(self).may_answer(Evaluation { query: models(params@), reply: reply_of(r) }),
            forall|e: Evaluation<S>| #[trigger]
                final(self).may_answer(e) == old(self).may_answer(e),
    ;
}

/// Whether a function that may fail may answer as an evaluation says.
pub open spec fn fallible_answers<
    S,
    F: FnMut(&[Tensor<S>]) -> Result<(S, Vec<Tensor<S>>), AutodiffError>,
>(function: F, evaluation: Evaluation<S>) -> bool {
    exists|params: &[Tensor<S>], returned: Result<(S, Vec<Tensor<S>>), AutodiffError>|
        {
            &&& models(params@) == evaluation.query
            &&& reply_of(returned) == evaluation.reply
            &&& #[trigger] call_ensures(function, (params,), returned)
        }
}

/// Whether a function that always succeeds may answer as an evaluation says.
pub open spec fn infallible_answers<S, F: FnMut(&[Tensor<S>]) -> (S, Vec<Tensor<S>>)>(
    function: F,
    evaluation: Evaluation<S>,
) -> bool {
    exists|params: &[Tensor<S>], returned: (S, Vec<Tensor<S>>)|
        {
            &&& models(params@) == evaluation.query
            &&& evaluation.reply == Ok::<_, ErrorModel>((returned.0, models(returned.1@)))
            &&& #[trigger] call_ensures(function, (params,), returned)
        }
}

/// An objective that may fail.
pub struct Fallible<S, F> {
    pub function: F,
    pub record: Ghost<Seq<Evaluation<S>>>,
}

impl<S, F> Fallible<S, F> {
    /// An objective that has not been evaluated.
    pub open spec fn fresh(function: F) -> Fallible<S, F> {
        Fallible { function, record: Ghost(Seq::empty()) }
    }

    /// An objective that has not been evaluated.
    pub fn new(function: F) -> (r: Fallible<S, F>)
        ensures
            r == Self::fresh(function),
    {
        Fallible { function, record: Ghost(Seq::empty()) }
    }
}

impl<S, F: FnMut(&[Tensor<S>]) -> Result<(S, Vec<Tensor<S>>), AutodiffError>> Objective<
    S,
> for Fallible<S, F> {
    open spec fn ready(self) -> bool {
        forall|params: &[Tensor<S>]| call_requires(self.function, (params,))
    }

    open spec fn may_answer(self, evaluation: Evaluation<S>) -> bool {
        fallible_answers(self.function, evaluation)
    }

    open spec fn record(self) -> Seq<Evaluation<S>> {
        self.record@
    }

    fn call(&mut self, params: &[Tensor<S>]) -> (r: Result<(S, Vec<Tensor<S>>), AutodiffError>) {
        let r: Result<(S, Vec<Tensor<S>>), AutodiffError> = (self.function)(params);
        self.record = Ghost(
            self.record@.push(Evaluation { query: models(params@), reply: reply_of(r) }),
        );
        r
    }
}

/// An objective that always succeeds.
pub struct Infallible<S, F> {
    pub function: F,
    pub record: Ghost<Seq<Evaluation<S>>>,
}

impl<S, F> Infallible<S, F> {
    /// An objective that has not been evaluated.
    pub open spec fn fresh(function: F) -> Infallible<S, F> {
        Infallible { function, record: Ghost(Seq::empty()) }
    }

    /// An objective that has not been evaluated.
    pub fn new(function: F) -> (r: Infallible<S, F>)
        ensures
            r == Self::fresh(function),
    {
        Infallible { function, record: Ghost(Seq::empty()) }
    }
}

impl<S, F: FnMut(&[Tensor<S>]) -> (S, Vec<Tensor<S>>)> Objective<S> for Infallible<S, F> {
    open spec fn ready(self) -> bool {
        forall|params: &[Tensor<S>]| call_requires(self.function, (params,))
    }

    open spec fn may_answer(self, evaluation: Evaluation<S>) -> bool {
        infallible_answers(self.function, evaluation)
    }

    open spec fn record(self) -> Seq<Evaluation<S>> {
        self.record@
    }

    fn call(&mut self, params: &[Tensor<S>]) -> (r: Result<(S, Vec<Tensor<S>>), AutodiffError>) {
        let returned: (S, Vec<Tensor<S>>) = (self.function)(params);
        let ghost reply: Reply<S> = Ok((returned.0, models(returned.1@)));
        self.record = Ghost(self.record@.push(Evaluation { query: models(params@), reply }));
        Ok(returned)
    }
}

/// Whether all evaluations of a log are answers of an objective function.
pub open spec fn may_answer_all<S, O: Objective<S>>(
    objective: O,
    log: Seq<Evaluation<S>>,
) -> bool {
    forall|i: int| 0 <= i < log.len() ==> objective.may_answer(#[trigger] log[i])
}

/// Whether an objective has gone from one state to another by the evaluations of a
/// log, those and no others.
pub open spec fn continues<S, O: Objective<S>>(
    before: O,
    after: O,
    log: Seq<Evaluation<S>>,
) -> bool {
    &&& after.ready()
    &&& after.record() == before.record() + log
    &&& may_answer_all(before, log)
    &&& forall|e: Evaluation<S>| #[trigger] after.may_answer(e) == before.may_answer(e)
}

pub(crate) proof fn continues_as_it_is<S, O: Objective<S>>(objective: O)
    requires
        objective.ready(),
    ensures
        continues(objective, objective, Seq::empty()),
{
    assert(objective.record() + Seq::<Evaluation<S>>::empty() =~= objective.record());
}

pub(crate) proof fn continues_on<S, O: Objective<S>>(
    before: O,
    log: Seq<Evaluation<S>>,
    between: O,
    more: Seq<Evaluation<S>>,
    after: O,
)
    requires
        continues(before, between, log),
        continues(between, after, more),
    ensures
        continues(before, after, log + more),
{
    assert(before.record() + log + more =~= before.record() + (log + more));
    assert forall|i: int| 0 <= i < (log + more).len() implies before.may_answer(
        #[trigger] (log + more)[i],
    ) by {
        if i >= log.len() {
            assert(between.may_answer(more[i - log.len()]));
        } else {
            assert(before.may_answer(log[i]));
        }
    }
    assert forall|e: Evaluation<S>| #[trigger] after.may_answer(e) == before.may_answer(e) by {
        assert(between.may_answer(e) == before.may_answer(e));
    }
}

/// The log of a single evaluation.
pub open spec fn once<S>(query: Seq<TensorModel<S>>, reply: Reply<S>) -> Seq<Evaluation<S>> {
    seq![Evaluation { query, reply }]
}

/// The queries of a log.
pub open spec fn queries<S>(log: Seq<Evaluation<S>>) -> Seq<Seq<TensorModel<S>>> {
    log.map_values(|e: Evaluation<S>| e.query)
}

/// The answers of a log.
pub open spec fn replies<S>(log: Seq<Evaluation<S>>) -> Seq<Reply<S>> {
    log.map_values(|e: Evaluation<S>| e.reply)
}

/// A trace with earlier queries in front.
pub open spec fn prepend<S, R>(front: Seq<Seq<TensorModel<S>>>, trace: Trace<S, R>) -> Trace<S, R> {
    Trace { queries: front + trace.queries, result: trace.result }
}

/// Whether a computation makes the evaluations of a log and then goes on as the
/// computation `next` does.
pub open spec fn leads<S, R>(
    run: Computation<S, R>,
    log: Seq<Evaluation<S>>,
    next: Computation<S, R>,
) -> bool {
    forall|rest: Seq<Reply<S>>| #[trigger]
        run(replies(log) + rest) == prepend(queries(log), next(rest))
}

/// Whether a computation makes the evaluations of a log, no others, and ends with
/// the given result.
pub open spec fn finishes<S, R>(
    run: Computation<S, R>,
    log: Seq<Evaluation<S>>,
    result: Result<R, ErrorModel>,
) -> bool {
    forall|rest: Seq<Reply<S>>| #[trigger]
        run(replies(log) + rest) == (Trace { queries: queries(log), result })
}

pub(crate) proof fn leads_to_itself<S, R>(run: Computation<S, R>)
    ensures
        leads(run, Seq::empty(), run),
{
    assert forall|rest: Seq<Reply<S>>| #[trigger]
        run(replies(Seq::<Evaluation<S>>::empty()) + rest) == prepend(
            queries(Seq::<Evaluation<S>>::empty()),
            run(rest),
        ) by {
        assert(replies(Seq::<Evaluation<S>>::empty()) + rest =~= rest);
        assert(prepend(queries(Seq::<Evaluation<S>>::empty()), run(rest)) =~= run(rest));
    }
}

pub(crate) proof fn leads_on<S, R>(
    run: Computation<S, R>,
    log: Seq<Evaluation<S>>,
    middle: Computation<S, R>,
    more: Seq<Evaluation<S>>,
    next: Computation<S, R>,
)
    requires
        leads(run, log, middle),
        leads(middle, more, next),
    ensures
        leads(run, log + more, next),
{
    assert forall|rest: Seq<Reply<S>>| #[trigger]
        run(replies(log + more) + rest) == prepend(queries(log + more), next(rest)) by {
        assert(replies(log + more) + rest =~= replies(log) + (replies(more) + rest));
        assert(middle(replies(more) + rest) == prepend(queries(more), next(rest)));
        assert(queries(log + more) =~= queries(log) + queries(more));
        assert(prepend(queries(log), prepend(queries(more), next(rest))) =~= prepend(
            queries(log + more),
            next(rest),
        ));
    }
}

pub(crate) proof fn leads_to_end<S, R>(
    run: Computation<S, R>,
    log: Seq<Evaluation<S>>,
    middle: Computation<S, R>,
    more: Seq<Evaluation<S>>,
    result: Result<R, ErrorModel>,
)
    requires
        leads(run, log, middle),
        finishes(middle, more, result),
    ensures
        finishes(run, log + more, result),
{
    assert forall|rest: Seq<Reply<S>>| #[trigger]
        run(replies(log + more) + rest) == (Trace { queries: queries(log + more), result }) by {
        assert(replies(log + more) + rest =~= replies(log) + (replies(more) + rest));
        assert(middle(replies(more) + rest) == (Trace { queries: queries(more), result }));
        assert(queries(log + more) =~= queries(log) + queries(more));
        assert(prepend(queries(log), Trace { queries: queries(more), result }) =~= (Trace {
            queries: queries(log + more),
            result,
        }));
    }
}

/// A computation that makes one step and goes on with its result.
pub open spec fn followed<S, A, R>(
    first: Trace<S, A>,
    answers: Seq<Reply<S>>,
    next: spec_fn(A, Seq<Reply<S>>) -> Trace<S, R>,
) -> Trace<S, R> {
    match first.result {
        Err(e) => Trace { queries: first.queries, result: Err(e) },
        Ok(value) => prepend(
            first.queries,
            next(value, answers.skip(first.queries.len() as int)),
        ),
    }
}

/// A function that answers by the query alone.
pub type Landscape<S> = spec_fn(Seq<TensorModel<S>>) -> Reply<S>;

/// Whether answers are those of a function at the queries.
pub open spec fn answered_by<S>(
    landscape: Landscape<S>,
    queries: Seq<Seq<TensorModel<S>>>,
    answers: Seq<Reply<S>>,
) -> bool {
    &&& queries.len() <= answers.len()
    &&& forall|i: int| 0 <= i < queries.len() ==> #[trigger] answers[i] == landscape(queries[i])
}

/// Answers to two series of queries are answers to each of them.
pub(crate) proof fn answered_in_parts<S>(
    landscape: Landscape<S>,
    front: Seq<Seq<TensorModel<S>>>,
    back: Seq<Seq<TensorModel<S>>>,
    answers: Seq<Reply<S>>,
)
    requires
        answered_by(landscape, front + back, answers),
    ensures
        answered_by(landscape, front, answers),
        answered_by(landscape, back, answers.skip(front.len() as int)),
{
    let all = front + back;
    assert forall|i: int| 0 <= i < front.len() implies #[trigger] answers[i] == landscape(
        front[i],
    ) by {
        assert(all[i] == front[i]);
    }
    let rest = answers.skip(front.len() as int);
    assert forall|i: int| 0 <= i < back.len() implies #[trigger] rest[i] == landscape(back[i]) by {
        assert(all[front.len() + i] == back[i]);
        assert(answers[front.len() + i] == landscape(all[front.len() + i]));
    }
}

} // verus!
