//! A line search that stops at a point which meets the strong Wolfe conditions.
use crate::error::{AutodiffError, ErrorModel, invalid, refused, tell, told};
use crate::number::{Real, Single, in_unit_range, is_number, non_negative, one, zero};
use crate::optim::flat::{
    abs_max, all_countable, dot, dot_f64, ensure_finite_slice, flat, flatten_tensors,
    inner_product_with_one, inner_products_are_symmetric, is_finite_vector, not_finite, opposite,
    opposite_vectors_have_no_positive_product, peak, shape_models, shapes_of, size_of,
    squares_are_not_negative, step_along, stepped_along, unflat, unflatten_tensors,
};
use crate::optim::slots::models;
use crate::optim::trace::{
    Computation, Evaluation, Landscape, Objective, Reply, Trace, answered_by, answered_in_parts,
    continues, continues_as_it_is, continues_on, finishes, followed, leads, leads_on, leads_to_end,
    leads_to_itself, once, prepend, queries, replies, reply_of,
};
use crate::tensor::{Tensor, TensorModel, copied, same_shape, shape_mismatch};
use crate::text::{followed_by, followed_by_count, numeral};
use crate::optim::direction::{zero_is_zero};
use crate::fixed::{Fixed, ten_to};
use vstd::prelude::*;

verus! {

/// The error of the first gradient, from number `i` on, that does not fit its
/// slot.
pub open spec fn gradients_error<S: Real>(
    shapes: Seq<Seq<usize>>,
    grads: Seq<TensorModel<S>>,
    i: int,
) -> Option<ErrorModel>
    decreases grads.len() - i,
{
    if i >= grads.len() {
        None
    } else if grads[i].shape != shapes[i] {
        Some(ErrorModel::ShapeMismatch { lhs: grads[i].shape, rhs: shapes[i] })
    } else if !is_finite_vector(grads[i].data) {
        Some(refused("Lbfgs: closure returned a non-finite gradient element"))
    } else {
        gradients_error(shapes, grads, i + 1)
    }
}

/// The error of another number of gradients than of parameters.
pub open spec fn gradient_count_wrong(given: nat, expected: nat) -> ErrorModel {
    ErrorModel::InvalidArgument(
        "Lbfgs: closure returned "@ + numeral(given) + " gradients, expected "@ + numeral(expected)
            + " (one per parameter slot)"@,
    )
}

fn refuse_gradient_count(given: usize, expected: usize) -> (r: AutodiffError)
    ensures
        r@ == gradient_count_wrong(given as nat, expected as nat),
{
    let text: String = followed_by_count("Lbfgs: closure returned ".to_owned(), given);
    let text: String = followed_by_count(followed_by(text, " gradients, expected "), expected);
    AutodiffError::InvalidArgument(followed_by(text, " (one per parameter slot)"))
}

/// Why a loss and gradients cannot be used, if they cannot.
pub open spec fn output_error<S: Real>(
    shapes: Seq<Seq<usize>>,
    loss: S,
    grads: Seq<TensorModel<S>>,
) -> Option<ErrorModel> {
    if !loss.finite() {
        Some(told("Lbfgs: closure returned non-finite loss ", loss))
    } else if grads.len() != shapes.len() {
        Some(gradient_count_wrong(grads.len(), shapes.len()))
    } else {
        gradients_error(shapes, grads, 0)
    }
}

/// The loss and the gradient, as one vector, that an answer gives.
pub open spec fn evaluated<S: Real>(shapes: Seq<Seq<usize>>, reply: Reply<S>) -> Result<
    (S, Seq<S>),
    ErrorModel,
> {
    match reply {
        Err(e) => Err(e),
        Ok((loss, grads)) => match output_error(shapes, loss, grads) {
            Some(e) => Err(e),
            None => Ok((loss, flat(grads))),
        },
    }
}

/// Refuses a loss or gradients that are not finite, and gradients that do not have
/// the shapes of the slots.
pub fn validate_closure_output<S: Real>(
    slot_shapes: &Vec<Vec<usize>>,
    loss: S,
    grads: &[Tensor<S>],
) -> (r: Result<(), AutodiffError>)
    ensures
        match r {
            Ok(_) => output_error(shape_models(slot_shapes@), loss, models(grads@)) is None,
            Err(e) => output_error(shape_models(slot_shapes@), loss, models(grads@)) == Some(e@),
        },
        r is Ok ==> shapes_of(models(grads@)) == shape_models(slot_shapes@),
{
    let ghost shapes = shape_models(slot_shapes@);
    let ghost all = models(grads@);
    if !loss.is_finite() {
        return Err(tell("Lbfgs: closure returned non-finite loss ", loss));
    }
    if grads.len() != slot_shapes.len() {
        return Err(refuse_gradient_count(grads.len(), slot_shapes.len()));
    }
    let mut i: usize = 0;
    while i < grads.len()
        invariant
            shapes == shape_models(slot_shapes@),
            all == models(grads@),
            i <= grads@.len(),
            grads@.len() == slot_shapes@.len(),
            gradients_error(shapes, all, 0) == gradients_error(shapes, all, i as int),
            output_error(shapes, loss, all) == gradients_error(shapes, all, 0),
            forall|k: int| 0 <= k < i ==> (#[trigger] all[k]).shape == shapes[k],
        decreases grads@.len() - i,
    {
        let grad: &Tensor<S> = &grads[i];
        assert(all[i as int] == grad@);
        assert(shapes[i as int] == slot_shapes@[i as int]@);
        if !same_shape(grad.shape(), slot_shapes[i].as_slice()) {
            return Err(shape_mismatch(grad.shape(), slot_shapes[i].as_slice()));
        }
        if ensure_finite_slice("Lbfgs", grad.as_slice()).is_err() {
            return Err(invalid("Lbfgs: closure returned a non-finite gradient element"));
        }
        i = i + 1;
    }
    assert(shapes_of(all) =~= shapes);
    Ok(())
}

/// The line that a search moves along, and where the search starts.
#[verifier::ext_equal]
pub struct Line<S> {
    pub shapes: Seq<Seq<usize>>,
    /// The starting point, as one vector.
    pub origin: Seq<S>,
    pub direction: Seq<S>,
    /// The loss, the gradient and the slope at the starting point.
    pub loss: S,
    pub gradient: Seq<S>,
    pub slope: S,
}

/// A point of a line: its distance from the start, and the loss, the gradient and
/// the slope there.
#[verifier::ext_equal]
pub struct PointModel<S> {
    pub t: S,
    pub loss: S,
    pub gradient: Seq<S>,
    pub slope: S,
}

impl<S: Single> Line<S> {
    pub open spec fn start(self) -> PointModel<S> {
        PointModel { t: zero(), loss: self.loss, gradient: self.gradient, slope: self.slope }
    }

    pub open spec fn wf(self) -> bool {
        &&& all_countable(self.shapes)
        &&& self.origin.len() == size_of(self.shapes)
        &&& self.direction.len() == size_of(self.shapes)
        &&& self.gradient.len() == size_of(self.shapes)
    }

    /// The parameters at distance `t`, as one vector.
    pub open spec fn point(self, t: S) -> Seq<S> {
        stepped_along(self.origin, t, self.direction)
    }

    /// Evaluates the objective at distance `t`.
    pub open spec fn evaluation(self, t: S, answers: Seq<Reply<S>>) -> Trace<S, (S, Seq<S>)> {
        if is_finite_vector(self.point(t)) {
            Trace {
                queries: seq![unflat(self.point(t), self.shapes)],
                result: evaluated(self.shapes, answers[0]),
            }
        } else {
            Trace {
                queries: Seq::empty(),
                result: Err(not_finite("Lbfgs::directional_evaluate: trial = x + t*d")),
            }
        }
    }

    /// Evaluates the objective at distance `t` and takes the slope there, which
    /// `label` describes in an error.
    pub open spec fn probe(self, label: &str, t: S, answers: Seq<Reply<S>>) -> Trace<
        S,
        PointModel<S>,
    > {
        let found = self.evaluation(t, answers);
        Trace {
            queries: found.queries,
            result: match found.result {
                Err(e) => Err(e),
                Ok((loss, gradient)) => match dot(label, gradient, self.direction) {
                    Err(e) => Err(e),
                    Ok(slope) => Ok(PointModel { t, loss, gradient, slope }),
                },
            },
        }
    }
}

/// The result of evaluating the objective, as a mathematical value.
pub open spec fn found_of<S>(found: Result<(S, Vec<S>), AutodiffError>) -> Result<
    (S, Seq<S>),
    ErrorModel,
> {
    match found {
        Ok((loss, gradient)) => Ok((loss, gradient@)),
        Err(e) => Err(e@),
    }
}

/// Calls the objective and checks what it returns.
pub(crate) fn evaluate<
    S: Single,
    O: Objective<S>,
>(closure: &mut O, slot_shapes: &Vec<Vec<usize>>, params: &[Tensor<S>]) -> (r: Result<
    (S, Vec<S>),
    AutodiffError,
>)
    requires
        old(closure).ready(),
    ensures
        exists|reply: Reply<S>|
            {
                &&& #[trigger] continues(
                    *old(closure),
                    *final(closure),
                    once(models(params@), reply),
                )
                &&& evaluated(shape_models(slot_shapes@), reply) == found_of(r)
            },
        r matches Ok((_, gradient)) ==> gradient@.len() == size_of(shape_models(slot_shapes@)),
{
    let ghost objective = *closure;
    let returned: Result<(S, Vec<Tensor<S>>), AutodiffError> = closure.call(params);
    proof {
        let log = once(models(params@), reply_of(returned));
        assert(closure.record() =~= objective.record() + log);
        assert(continues(objective, *closure, log));
    }
    match returned {
        Err(e) => Err(e),
        Ok((loss, grads)) => {
            match validate_closure_output(slot_shapes, loss, grads.as_slice()) {
                Err(e) => Err(e),
                Ok(_) => {
                    let gradient: Vec<S> = flatten_tensors(grads.as_slice());
                    Ok((loss, gradient))
                },
            }
        },
    }
}

/// Evaluates the objective at `x + t * d`, unless that is not finite.
pub fn directional_evaluate<
    S: Single,
    O: Objective<S>,
>(closure: &mut O, slot_shapes: &Vec<Vec<usize>>, x: &[S], t: S, d: &[S]) -> (r: Result<
    (S, Vec<S>),
    AutodiffError,
>)
    requires
        old(closure).ready(),
        all_countable(shape_models(slot_shapes@)),
        x@.len() == size_of(shape_models(slot_shapes@)),
        d@.len() == size_of(shape_models(slot_shapes@)),
    ensures
        !is_finite_vector(stepped_along(x@, t, d@)) ==> *final(closure) == *old(closure)
            && found_of(r) == Err::<(S, Seq<S>), _>(
            not_finite("Lbfgs::directional_evaluate: trial = x + t*d"),
        ),
        is_finite_vector(stepped_along(x@, t, d@)) ==> exists|reply: Reply<S>|
            {
                &&& #[trigger] continues(
                    *old(closure),
                    *final(closure),
                    once(unflat(stepped_along(x@, t, d@), shape_models(slot_shapes@)), reply),
                )
                &&& evaluated(shape_models(slot_shapes@), reply) == found_of(r)
            },
        r matches Ok((_, gradient)) ==> gradient@.len() == size_of(shape_models(slot_shapes@)),
{
    let trial: Vec<S> = step_along(x, t, d);
    match ensure_finite_slice("Lbfgs::directional_evaluate: trial = x + t*d", trial.as_slice()) {
        Err(e) => Err(e),
        Ok(_) => {
            let params: Vec<Tensor<S>> = unflatten_tensors(trial.as_slice(), slot_shapes);
            evaluate(closure, slot_shapes, params.as_slice())
        },
    }
}

/// Where the cubic polynomial through two points with the given slopes has its
/// minimum, kept between the bounds.
///
/// Without bounds the minimum is kept between the two points.
pub open spec fn cubic_minimum<S: Real>(
    x1: S,
    f1: S,
    g1: S,
    x2: S,
    f2: S,
    g2: S,
    bounds: Option<(S, S)>,
) -> S {
    let ordered = x1.at_most(x2);
    let (low, high) = match bounds {
        Some(b) => b,
        None => if ordered {
            (x1, x2)
        } else {
            (x2, x1)
        },
    };
    let d1 = g1.plus(g2).minus(S::decimal(3, 0).times(f1.minus(f2)).over(x1.minus(x2)));
    let square = d1.times(d1).minus(g1.times(g2));
    if zero::<S>().at_most(square) {
        let d2 = square.root();
        let minimum = if ordered {
            x2.minus(
                x2.minus(x1).times(
                    g2.plus(d2).minus(d1).over(g2.minus(g1).plus(S::decimal(2, 0).times(d2))),
                ),
            )
        } else {
            x1.minus(
                x1.minus(x2).times(
                    g1.plus(d2).minus(d1).over(g1.minus(g2).plus(S::decimal(2, 0).times(d2))),
                ),
            )
        };
        minimum.larger(low).smaller(high)
    } else {
        low.plus(high).over(S::decimal(2, 0))
    }
}

pub fn cubic_interpolate<S: Real>(
    x1: S,
    f1: S,
    g1: S,
    x2: S,
    f2: S,
    g2: S,
    bounds: Option<(S, S)>,
) -> (r: S)
    ensures
        r == cubic_minimum(x1, f1, g1, x2, f2, g2, bounds),
{
    let ordered: bool = x1.le(x2);
    let (low, high): (S, S) = match bounds {
        Some((low, high)) => (low, high),
        None => if ordered {
            (x1, x2)
        } else {
            (x2, x1)
        },
    };
    let two: S = S::literal(2, 0);
    let d1: S = g1.add(g2).sub(S::literal(3, 0).mul(f1.sub(f2)).div(x1.sub(x2)));
    let square: S = d1.mul(d1).sub(g1.mul(g2));
    if S::literal(0, 0).le(square) {
        let d2: S = square.sqrt();
        let minimum: S = if ordered {
            x2.sub(x2.sub(x1).mul(g2.add(d2).sub(d1).div(g2.sub(g1).add(two.mul(d2)))))
        } else {
            x1.sub(x1.sub(x2).mul(g1.add(d2).sub(d1).div(g1.sub(g2).add(two.mul(d2)))))
        };
        minimum.max(low).min(high)
    } else {
        low.add(high).div(two)
    }
}

/// Two points of a line, and which of them has the lower loss.
#[verifier::ext_equal]
pub struct IntervalModel<S> {
    pub first: PointModel<S>,
    pub second: PointModel<S>,
    pub first_is_low: bool,
}

impl<S: Single> IntervalModel<S> {
    /// The interval of two points.
    pub open spec fn of(first: PointModel<S>, second: PointModel<S>) -> IntervalModel<S> {
        IntervalModel { first, second, first_is_low: first.loss.at_most(second.loss) }
    }

    pub open spec fn low(self) -> PointModel<S> {
        if self.first_is_low {
            self.first
        } else {
            self.second
        }
    }

    pub open spec fn high(self) -> PointModel<S> {
        if self.first_is_low {
            self.second
        } else {
            self.first
        }
    }

    pub open spec fn with_high(self, point: PointModel<S>) -> IntervalModel<S> {
        if self.first_is_low {
            IntervalModel { second: point, ..self }
        } else {
            IntervalModel { first: point, ..self }
        }
    }

    pub open spec fn with_low(self, point: PointModel<S>) -> IntervalModel<S> {
        if self.first_is_low {
            IntervalModel { first: point, ..self }
        } else {
            IntervalModel { second: point, ..self }
        }
    }

    pub open spec fn upper_end(self) -> S {
        self.first.t.larger(self.second.t)
    }

    pub open spec fn lower_end(self) -> S {
        self.first.t.smaller(self.second.t)
    }
}

/// What a search for an interval does next.
pub enum BracketMove<S> {
    /// The point meets the conditions.
    Accept(PointModel<S>),
    /// The interval contains a point that does.
    Zoom(IntervalModel<S>),
    /// Go on to this distance.
    Extend(S),
}

impl<S: Single> Line<S> {
    /// Whether the loss at a point is above the line of sufficient decrease.
    pub open spec fn too_high(self, point: PointModel<S>) -> bool {
        self.loss.plus(S::decimal(1, -4).times(point.t).times(self.slope)).less(point.loss)
    }

    /// Whether the slope at a point is small enough.
    pub open spec fn level(self, point: PointModel<S>) -> bool {
        point.slope.magnitude().at_most(S::decimal(9, -1).negated().times(self.slope))
    }

    /// What follows point number `n`, with `more` further points allowed.
    pub open spec fn bracket_move(
        self,
        previous: PointModel<S>,
        point: PointModel<S>,
        n: nat,
        more: nat,
    ) -> BracketMove<S> {
        if n >= more {
            BracketMove::Zoom(IntervalModel::of(self.start(), point))
        } else if self.too_high(point) || (n > 1 && previous.loss.at_most(point.loss)) {
            BracketMove::Zoom(IntervalModel::of(previous, point))
        } else if self.level(point) {
            BracketMove::Accept(point)
        } else if zero::<S>().at_most(point.slope) {
            BracketMove::Zoom(IntervalModel::of(previous, point))
        } else {
            BracketMove::Extend(
                cubic_minimum(
                    previous.t,
                    previous.loss,
                    previous.slope,
                    point.t,
                    point.loss,
                    point.slope,
                    Some(
                        (
                            point.t.plus(S::decimal(1, -2).times(point.t.minus(previous.t))),
                            point.t.times(S::decimal(10, 0)),
                        ),
                    ),
                ),
            )
        }
    }

    /// Searches on from point number `n`, with `more` further points allowed.
    pub open spec fn bracket(
        self,
        previous: PointModel<S>,
        point: PointModel<S>,
        n: nat,
        more: nat,
        answers: Seq<Reply<S>>,
    ) -> Trace<S, PointModel<S>>
        decreases more - n,
    {
        match self.bracket_move(previous, point, n, more) {
            BracketMove::Accept(found) => Trace { queries: Seq::empty(), result: Ok(found) },
            BracketMove::Zoom(interval) => self.zoom(interval, false, n, more, answers),
            BracketMove::Extend(t) => followed(
                self.probe("Lbfgs::strong_wolfe: g_new·d (gtd_new, bracket search)", t, answers),
                answers,
                |next: PointModel<S>, rest: Seq<Reply<S>>|
                    self.bracket(point, next, n + 1, more, rest),
            ),
        }
    }

    /// The distance to look at inside an interval, and whether it is close to an
    /// end of the interval for the first time.
    ///
    /// A distance that is close to an end for the second time in a row, or outside,
    /// is moved inwards.
    pub open spec fn zoom_distance(self, interval: IntervalModel<S>, close_before: bool) -> (
        S,
        bool,
    ) {
        let first = interval.first;
        let second = interval.second;
        let t = cubic_minimum(
            first.t,
            first.loss,
            first.slope,
            second.t,
            second.loss,
            second.slope,
            None,
        );
        let upper = interval.upper_end();
        let lower = interval.lower_end();
        let margin = S::decimal(1, -1).times(upper.minus(lower));
        if upper.minus(t).smaller(t.minus(lower)).less(margin) {
            if close_before || upper.at_most(t) || t.at_most(lower) {
                if t.minus(upper).magnitude().less(t.minus(lower).magnitude()) {
                    (upper.minus(margin), false)
                } else {
                    (lower.plus(margin), false)
                }
            } else {
                (t, true)
            }
        } else {
            (t, false)
        }
    }

    /// The interval after a point inside it was evaluated, and whether the search
    /// is over.
    pub open spec fn narrowed(self, interval: IntervalModel<S>, point: PointModel<S>) -> (
        IntervalModel<S>,
        bool,
    ) {
        if self.too_high(point) || interval.low().loss.at_most(point.loss) {
            let next = interval.with_high(point);
            (IntervalModel::of(next.first, next.second), false)
        } else if self.level(point) {
            (interval.with_low(point), true)
        } else if zero::<S>().at_most(
            point.slope.times(interval.high().t.minus(interval.low().t)),
        ) {
            (interval.with_high(interval.low()).with_low(point), false)
        } else {
            (interval.with_low(point), false)
        }
    }

    /// Whether an interval is too short to be searched.
    pub open spec fn negligible(self, interval: IntervalModel<S>) -> bool {
        interval.second.t.minus(interval.first.t).magnitude().times(peak(self.direction)).less(
            S::decimal(1, -9),
        )
    }

    /// Narrows an interval down, with `more - n` further points allowed.
    pub open spec fn zoom(
        self,
        interval: IntervalModel<S>,
        close_before: bool,
        n: nat,
        more: nat,
        answers: Seq<Reply<S>>,
    ) -> Trace<S, PointModel<S>>
        decreases more - n,
    {
        if n >= more || self.negligible(interval) {
            Trace { queries: Seq::empty(), result: Ok(interval.low()) }
        } else {
            let (t, close) = self.zoom_distance(interval, close_before);
            followed(
                self.probe("Lbfgs::strong_wolfe: g_new·d (gtd_new, zoom)", t, answers),
                answers,
                |point: PointModel<S>, rest: Seq<Reply<S>>|
                    {
                        let (next, done) = self.narrowed(interval, point);
                        if done {
                            Trace { queries: Seq::empty(), result: Ok(next.low()) }
                        } else {
                            self.zoom(next, close, n + 1, more, rest)
                        }
                    },
            )
        }
    }

    /// The line search that starts with distance `t` and makes at most `budget`
    /// evaluations.
    pub open spec fn search(self, t: S, budget: nat, answers: Seq<Reply<S>>) -> Trace<
        S,
        PointModel<S>,
    > {
        if budget == 0 {
            Trace { queries: Seq::empty(), result: Ok(self.start()) }
        } else {
            followed(
                self.probe("Lbfgs::strong_wolfe: g_new·d (gtd_new, initial)", t, answers),
                answers,
                |point: PointModel<S>, rest: Seq<Reply<S>>|
                    self.bracket(self.start(), point, 0, (budget - 1) as nat, rest),
            )
        }
    }
}

/// A point of a line: its distance from the start, and the loss, the gradient and
/// the slope there.
pub struct Point<S> {
    pub t: S,
    pub loss: S,
    pub gradient: Vec<S>,
    pub slope: S,
}

impl<S> View for Point<S> {
    type V = PointModel<S>;

    open spec fn view(&self) -> PointModel<S> {
        PointModel {
            t: self.t,
            loss: self.loss,
            gradient: self.gradient@,
            slope: self.slope,
        }
    }
}

impl<S: Copy> Point<S> {
    fn duplicate(&self) -> (r: Point<S>)
        ensures
            r@ == self@,
    {
        Point {
            t: self.t,
            loss: self.loss,
            gradient: copied(self.gradient.as_slice()),
            slope: self.slope,
        }
    }
}

/// Two points of a line, and which of them has the lower loss.
struct Interval<S> {
    first: Point<S>,
    second: Point<S>,
    first_is_low: bool,
}

impl<S> View for Interval<S> {
    type V = IntervalModel<S>;

    closed spec fn view(&self) -> IntervalModel<S> {
        IntervalModel {
            first: self.first@,
            second: self.second@,
            first_is_low: self.first_is_low,
        }
    }
}

impl<S: Single> Interval<S> {
    fn of(first: Point<S>, second: Point<S>) -> (r: Interval<S>)
        ensures
            r@ == IntervalModel::of(first@, second@),
    {
        let first_is_low: bool = first.loss.le(second.loss);
        Interval { first, second, first_is_low }
    }

    fn low(&self) -> (r: &Point<S>)
        ensures
            r@ == self@.low(),
    {
        if self.first_is_low {
            &self.first
        } else {
            &self.second
        }
    }

    fn high(&self) -> (r: &Point<S>)
        ensures
            r@ == self@.high(),
    {
        if self.first_is_low {
            &self.second
        } else {
            &self.first
        }
    }

    fn with_low(self, point: Point<S>) -> (r: Interval<S>)
        ensures
            r@ == self@.with_low(point@),
    {
        if self.first_is_low {
            Interval { first: point, second: self.second, first_is_low: true }
        } else {
            Interval { first: self.first, second: point, first_is_low: false }
        }
    }

    fn with_high(self, point: Point<S>) -> (r: Interval<S>)
        ensures
            r@ == self@.with_high(point@),
    {
        if self.first_is_low {
            Interval { first: self.first, second: point, first_is_low: true }
        } else {
            Interval { first: point, second: self.second, first_is_low: false }
        }
    }
}

fn is_too_high<S: Single>(Ghost(line): Ghost<Line<S>>, f0: S, gtd0: S, point: &Point<S>) -> (r: bool)
    requires
        line.loss == f0,
        line.slope == gtd0,
    ensures
        r == line.too_high(point@),
{
    f0.add(S::literal(1, -4).mul(point.t).mul(gtd0)).lt(point.loss)
}

fn is_level<S: Single>(Ghost(line): Ghost<Line<S>>, gtd0: S, point: &Point<S>) -> (r: bool)
    requires
        line.slope == gtd0,
    ensures
        r == line.level(point@),
{
    point.slope.abs().le(S::literal(9, -1).neg().mul(gtd0))
}

fn distance_in<S: Single>(
    Ghost(line): Ghost<Line<S>>,
    interval: &Interval<S>,
    close_before: bool,
) -> (r: (S, bool))
    ensures
        r == line.zoom_distance(interval@, close_before),
{
    let first: &Point<S> = &interval.first;
    let second: &Point<S> = &interval.second;
    let t: S = cubic_interpolate(
        first.t,
        first.loss,
        first.slope,
        second.t,
        second.loss,
        second.slope,
        None,
    );
    let upper: S = first.t.max(second.t);
    let lower: S = first.t.min(second.t);
    let margin: S = S::literal(1, -1).mul(upper.sub(lower));
    if upper.sub(t).min(t.sub(lower)).lt(margin) {
        if close_before || upper.le(t) || t.le(lower) {
            if t.sub(upper).abs().lt(t.sub(lower).abs()) {
                (upper.sub(margin), false)
            } else {
                (lower.add(margin), false)
            }
        } else {
            (t, true)
        }
    } else {
        (t, false)
    }
}

fn narrow<S: Single>(
    Ghost(line): Ghost<Line<S>>,
    f0: S,
    gtd0: S,
    interval: Interval<S>,
    point: Point<S>,
) -> (r: (Interval<S>, bool))
    requires
        line.loss == f0,
        line.slope == gtd0,
    ensures
        (r.0@, r.1) == line.narrowed(interval@, point@),
{
    if is_too_high(Ghost(line), f0, gtd0, &point) || interval.low().loss.le(point.loss) {
        let next: Interval<S> = interval.with_high(point);
        (Interval::of(next.first, next.second), false)
    } else if is_level(Ghost(line), gtd0, &point) {
        (interval.with_low(point), true)
    } else if S::literal(0, 0).le(point.slope.mul(interval.high().t.sub(interval.low().t))) {
        let low: Point<S> = interval.low().duplicate();
        (interval.with_high(low).with_low(point), false)
    } else {
        (interval.with_low(point), false)
    }
}

/// A found point, or the error instead, as a mathematical value.
pub open spec fn point_of<S>(found: Result<Point<S>, AutodiffError>) -> Result<
    PointModel<S>,
    ErrorModel,
> {
    match found {
        Ok(point) => Ok(point@),
        Err(e) => Err(e@),
    }
}

/// Evaluates the objective at distance `t` and takes the slope there.
fn probe<S: Single, O: Objective<S>>(
    label: &str,
    closure: &mut O,
    slot_shapes: &Vec<Vec<usize>>,
    x: &[S],
    t: S,
    d: &[S],
    Ghost(line): Ghost<Line<S>>,
) -> (r: Result<Point<S>, AutodiffError>)
    requires
        old(closure).ready(),
        line.wf(),
        line.shapes == shape_models(slot_shapes@),
        line.origin == x@,
        line.direction == d@,
    ensures
        exists|log: Seq<Evaluation<S>>|
            {
                &&& #[trigger] continues(*old(closure), *final(closure), log)
                &&& finishes(
                    |answers: Seq<Reply<S>>| line.probe(label, t, answers),
                    log,
                    point_of(r),
                )
                &&& log.len() <= 1
                &&& r is Ok ==> log.len() == 1
            },
        r matches Ok(point) ==> point@.gradient.len() == size_of(line.shapes),
{
    let ghost objective = *closure;
    let found: Result<(S, Vec<S>), AutodiffError> = directional_evaluate(
        closure,
        slot_shapes,
        x,
        t,
        d,
    );
    let ghost run = |answers: Seq<Reply<S>>| line.probe(label, t, answers);
    let ghost mut log: Seq<Evaluation<S>> = Seq::empty();
    proof {
        if is_finite_vector(line.point(t)) {
            let query = unflat(line.point(t), line.shapes);
            let reply = choose|reply: Reply<S>|
                {
                    &&& #[trigger] continues(objective, *closure, once(query, reply))
                    &&& evaluated(line.shapes, reply) == found_of(found)
                };
            log = once(query, reply);
            assert(queries(log) =~= seq![query]);
            assert forall|rest: Seq<Reply<S>>| (#[trigger] (replies(log) + rest))[0] == reply by {}
        } else {
            assert(queries(log) =~= Seq::empty());
            continues_as_it_is(objective);
        }
        assert(continues(objective, *closure, log));
    }
    match found {
        Err(e) => {
            assert(finishes(run, log, Err(e@)));
            Err(e)
        },
        Ok((loss, gradient)) => {
            match dot_f64(label, gradient.as_slice(), d) {
                Err(e) => {
                    assert(finishes(run, log, Err(e@)));
                    Err(e)
                },
                Ok(slope) => {
                    let point: Point<S> = Point { t, loss, gradient, slope };
                    assert(finishes(run, log, Ok(point@)));
                    Ok(point)
                },
            }
        },
    }
}

/// Narrows an interval down to a point.
#[verifier::loop_isolation(false)]
fn zoom_in<S: Single, O: Objective<S>>(
    closure: &mut O,
    slot_shapes: &Vec<Vec<usize>>,
    x: &[S],
    d: &[S],
    f0: S,
    gtd0: S,
    start: Interval<S>,
    evaluated_before: usize,
    more: usize,
    Ghost(line): Ghost<Line<S>>,
) -> (r: Result<(Point<S>, usize), AutodiffError>)
    requires
        old(closure).ready(),
        line.wf(),
        line.shapes == shape_models(slot_shapes@),
        line.origin == x@,
        line.direction == d@,
        line.loss == f0,
        line.slope == gtd0,
        evaluated_before <= more,
        start@.first.gradient.len() == size_of(line.shapes),
        start@.second.gradient.len() == size_of(line.shapes),
    ensures
        exists|log: Seq<Evaluation<S>>|
            {
                &&& #[trigger] continues(*old(closure), *final(closure), log)
                &&& finishes(
                    |answers: Seq<Reply<S>>|
                        line.zoom(start@, false, evaluated_before as nat, more as nat, answers),
                    log,
                    searched(r),
                )
                &&& log.len() <= more - evaluated_before
                &&& r matches Ok((_, evaluations)) ==> evaluations == log.len()
            },
        r matches Ok((point, _)) ==> point@.gradient.len() == size_of(line.shapes),
{
    let ghost objective = *closure;
    let ghost run: Computation<S, PointModel<S>> = |answers: Seq<Reply<S>>|
        line.zoom(start@, false, evaluated_before as nat, more as nat, answers);
    let norm: S = abs_max(d);
    let mut interval: Interval<S> = start;
    let mut close: bool = false;
    let mut n: usize = evaluated_before;
    let ghost mut log: Seq<Evaluation<S>> = Seq::empty();
    proof {
        leads_to_itself(run);
        continues_as_it_is(objective);
    }
    loop
        invariant
            evaluated_before <= n <= more,
            log.len() == n - evaluated_before,
            continues(objective, *closure, log),
            interval@.first.gradient.len() == size_of(line.shapes),
            interval@.second.gradient.len() == size_of(line.shapes),
            leads(
                run,
                log,
                |answers: Seq<Reply<S>>|
                    line.zoom(interval@, close, n as nat, more as nat, answers),
            ),
        decreases more - n,
    {
        let ghost here: Computation<S, PointModel<S>> = |answers: Seq<Reply<S>>|
            line.zoom(interval@, close, n as nat, more as nat, answers);
        assert(leads(run, log, here));
        if n >= more || interval.second.t.sub(interval.first.t).abs().mul(norm).lt(
            S::literal(1, -9),
        ) {
            let low: Point<S> = interval.low().duplicate();
            proof {
                assert forall|rest: Seq<Reply<S>>| #[trigger]
                    here(replies(Seq::<Evaluation<S>>::empty()) + rest) == (Trace {
                        queries: queries(Seq::<Evaluation<S>>::empty()),
                        result: Ok(low@),
                    }) by {
                    assert(queries(Seq::<Evaluation<S>>::empty()) =~= Seq::empty());
                }
                leads_to_end(run, log, here, Seq::empty(), Ok(low@));
                assert(log + Seq::<Evaluation<S>>::empty() =~= log);
            }
            return Ok((low, n - evaluated_before));
        }
        let (t, is_close): (S, bool) = distance_in(Ghost(line), &interval, close);
        let ghost asked = *closure;
        let found: Result<Point<S>, AutodiffError> = probe(
            "Lbfgs::strong_wolfe: g_new·d (gtd_new, zoom)",
            closure,
            slot_shapes,
            x,
            t,
            d,
            Ghost(line),
        );
        let ghost first: Computation<S, PointModel<S>> = |answers: Seq<Reply<S>>|
            line.probe("Lbfgs::strong_wolfe: g_new·d (gtd_new, zoom)", t, answers);
        let ghost step = choose|step: Seq<Evaluation<S>>|
            {
                &&& #[trigger] continues(asked, *closure, step)
                &&& finishes(first, step, point_of(found))
                &&& step.len() <= 1
                &&& found is Ok ==> step.len() == 1
            };
        proof {
            continues_on(objective, log, asked, step, *closure);
        }
        match found {
            Err(e) => {
                proof {
                    assert forall|rest: Seq<Reply<S>>| #[trigger]
                        here(replies(step) + rest) == (Trace::<S, PointModel<S>> {
                            queries: queries(step),
                            result: Err(e@),
                        }) by {
                        assert(first(replies(step) + rest).queries == queries(step));
                    }
                    leads_to_end(run, log, here, step, Err(e@));
                }
                return Err(e);
            },
            Ok(point) => {
                let ghost before = interval@;
                let ghost point_model = point@;
                let (next, done): (Interval<S>, bool) = narrow(
                    Ghost(line),
                    f0,
                    gtd0,
                    interval,
                    point,
                );
                if done {
                    let low: Point<S> = next.low().duplicate();
                    proof {
                        assert forall|rest: Seq<Reply<S>>| #[trigger]
                            here(replies(step) + rest) == (Trace {
                                queries: queries(step),
                                result: Ok(low@),
                            }) by {
                            assert(first(replies(step) + rest).queries == queries(step));
                            assert(queries(step) + Seq::empty() =~= queries(step));
                        }
                        leads_to_end(run, log, here, step, Ok(low@));
                    }
                    return Ok((low, n + 1 - evaluated_before));
                }
                interval = next;
                close = is_close;
                n = n + 1;
                proof {
                    let there: Computation<S, PointModel<S>> = |answers: Seq<Reply<S>>|
                        line.zoom(interval@, close, n as nat, more as nat, answers);
                    assert forall|rest: Seq<Reply<S>>| #[trigger]
                        here(replies(step) + rest) == prepend(queries(step), there(rest)) by {
                        assert(first(replies(step) + rest).queries == queries(step));
                        assert((replies(step) + rest).skip(queries(step).len() as int) =~= rest);
                    }
                    leads_on(run, log, here, step, there);
                    log = log + step;
                }
            },
        }
    }
}

/// A result of a line search, as a mathematical value.
pub open spec fn searched<S>(found: Result<(Point<S>, usize), AutodiffError>) -> Result<
    PointModel<S>,
    ErrorModel,
> {
    match found {
        Ok((point, _)) => Ok(point@),
        Err(e) => Err(e@),
    }
}

/// Searches along `d` from `x` for a point that meets the strong Wolfe conditions.
///
/// The search starts with distance `t0` and evaluates the objective at most
/// `max_ls` times; the result tells how often it did. A search that does not set out
/// uphill or backwards finds no higher loss than the one it starts from.
#[verifier::loop_isolation(false)]
pub fn strong_wolfe<S: Single, O: Objective<S>>(
    closure: &mut O,
    slot_shapes: &Vec<Vec<usize>>,
    x: &[S],
    t0: S,
    d: &[S],
    f0: S,
    g0: &[S],
    gtd0: S,
    max_ls: usize,
) -> (r: Result<(Point<S>, usize), AutodiffError>)
    requires
        old(closure).ready(),
        all_countable(shape_models(slot_shapes@)),
        x@.len() == size_of(shape_models(slot_shapes@)),
        d@.len() == size_of(shape_models(slot_shapes@)),
        g0@.len() == size_of(shape_models(slot_shapes@)),
    ensures
        exists|log: Seq<Evaluation<S>>|
            {
                let line = Line {
                    shapes: shape_models(slot_shapes@),
                    origin: x@,
                    direction: d@,
                    loss: f0,
                    gradient: g0@,
                    slope: gtd0,
                };
                &&& #[trigger] continues(*old(closure), *final(closure), log)
                &&& finishes(
                    |answers: Seq<Reply<S>>| line.search(t0, max_ls as nat, answers),
                    log,
                    searched(r),
                )
                &&& log.len() <= max_ls
                &&& r matches Ok((_, evaluations)) ==> evaluations == log.len()
                &&& r is Ok && max_ls > 0 ==> log.len() > 0
            },
        r matches Ok((point, _)) ==> point@.gradient.len() == size_of(shape_models(slot_shapes@)),
        f0.finite() && gtd0.finite() && gtd0.at_most(zero()) && zero::<S>().at_most(t0) && x@.len()
            > 0 ==> (r matches Ok((point, _)) ==> point.loss.at_most(f0)),
{
    let ghost objective = *closure;
    let ghost line = Line {
        shapes: shape_models(slot_shapes@),
        origin: x@,
        direction: d@,
        loss: f0,
        gradient: g0@,
        slope: gtd0,
    };
    let ghost run: Computation<S, PointModel<S>> = |answers: Seq<Reply<S>>|
        line.search(t0, max_ls as nat, answers);
    let ghost none = Seq::<Evaluation<S>>::empty();
    if max_ls == 0 {
        let start: Point<S> = Point {
            t: S::literal(0, 0),
            loss: f0,
            gradient: copied(g0),
            slope: gtd0,
        };
        proof {
            assert(queries(none) =~= Seq::empty());
            continues_as_it_is(objective);
            assert(start@ =~= line.start());
            assert(finishes(run, none, Ok(start@)));
            finished_search_never_raises_the_loss(line, t0, max_ls as nat, none, start@);
        }
        return Ok((start, 0));
    }
    let more: usize = max_ls - 1;
    let found: Result<Point<S>, AutodiffError> = probe(
        "Lbfgs::strong_wolfe: g_new·d (gtd_new, initial)",
        closure,
        slot_shapes,
        x,
        t0,
        d,
        Ghost(line),
    );
    let ghost first: Computation<S, PointModel<S>> = |answers: Seq<Reply<S>>|
        line.probe("Lbfgs::strong_wolfe: g_new·d (gtd_new, initial)", t0, answers);
    let ghost mut log = choose|log: Seq<Evaluation<S>>|
        {
            &&& #[trigger] continues(objective, *closure, log)
            &&& finishes(first, log, point_of(found))
            &&& log.len() <= 1
            &&& found is Ok ==> log.len() == 1
        };
    let mut point: Point<S> = match found {
        Err(e) => {
            proof {
                assert forall|rest: Seq<Reply<S>>| #[trigger]
                    run(replies(log) + rest) == (Trace::<S, PointModel<S>> {
                        queries: queries(log),
                        result: Err(e@),
                    }) by {
                    assert(first(replies(log) + rest).queries == queries(log));
                }
            }
            return Err(e);
        },
        Ok(point) => point,
    };
    let mut previous: Point<S> = Point {
        t: S::literal(0, 0),
        loss: f0,
        gradient: copied(g0),
        slope: gtd0,
    };
    assert(previous@ =~= line.start());
    let mut n: usize = 0;
    proof {
        let there: Computation<S, PointModel<S>> = |answers: Seq<Reply<S>>|
            line.bracket(previous@, point@, n as nat, more as nat, answers);
        assert forall|rest: Seq<Reply<S>>| #[trigger]
            run(replies(log) + rest) == prepend(queries(log), there(rest)) by {
            assert(first(replies(log) + rest).queries == queries(log));
            assert((replies(log) + rest).skip(queries(log).len() as int) =~= rest);
        }
    }
    let mut interval: Option<Interval<S>> = None;
    while n < more && interval.is_none()
        invariant
            n <= more,
            log.len() == n + 1,
            continues(objective, *closure, log),
            point@.gradient.len() == size_of(line.shapes),
            previous@.gradient.len() == size_of(line.shapes),
            interval matches Some(between) ==> {
                &&& n < more
                &&& between@.first.gradient.len() == size_of(line.shapes)
                &&& between@.second.gradient.len() == size_of(line.shapes)
                &&& line.bracket_move(previous@, point@, n as nat, more as nat)
                    == BracketMove::Zoom(between@)
            },
            leads(
                run,
                log,
                |answers: Seq<Reply<S>>|
                    line.bracket(previous@, point@, n as nat, more as nat, answers),
            ),
        decreases more - n, (if interval is None { 1int } else { 0 }),
    {
        let ghost here: Computation<S, PointModel<S>> = |answers: Seq<Reply<S>>|
            line.bracket(previous@, point@, n as nat, more as nat, answers);
        assert(leads(run, log, here));
        if is_too_high(Ghost(line), f0, gtd0, &point) || (n > 1 && previous.loss.le(point.loss)) {
            interval = Some(Interval::of(previous.duplicate(), point.duplicate()));
        } else if is_level(Ghost(line), gtd0, &point) {
            proof {
                assert forall|rest: Seq<Reply<S>>| #[trigger]
                    here(replies(none) + rest) == (Trace {
                        queries: queries(none),
                        result: Ok(point@),
                    }) by {
                    assert(queries(none) =~= Seq::empty());
                }
                leads_to_end(run, log, here, none, Ok(point@));
                assert(log + none =~= log);
                finished_search_never_raises_the_loss(line, t0, max_ls as nat, log, point@);
            }
            return Ok((point, n + 1));
        } else if S::literal(0, 0).le(point.slope) {
            interval = Some(Interval::of(previous.duplicate(), point.duplicate()));
        } else {
            let t: S = cubic_interpolate(
                previous.t,
                previous.loss,
                previous.slope,
                point.t,
                point.loss,
                point.slope,
                Some(
                    (
                        point.t.add(S::literal(1, -2).mul(point.t.sub(previous.t))),
                        point.t.mul(S::literal(10, 0)),
                    ),
                ),
            );
            let ghost asked = *closure;
            let found: Result<Point<S>, AutodiffError> = probe(
                "Lbfgs::strong_wolfe: g_new·d (gtd_new, bracket search)",
                closure,
                slot_shapes,
                x,
                t,
                d,
                Ghost(line),
            );
            let ghost first: Computation<S, PointModel<S>> = |answers: Seq<Reply<S>>|
                line.probe("Lbfgs::strong_wolfe: g_new·d (gtd_new, bracket search)", t, answers);
            let ghost step = choose|step: Seq<Evaluation<S>>|
                {
                    &&& #[trigger] continues(asked, *closure, step)
                    &&& finishes(first, step, point_of(found))
                    &&& step.len() <= 1
                    &&& found is Ok ==> step.len() == 1
                };
            proof {
                continues_on(objective, log, asked, step, *closure);
            }
            match found {
                Err(e) => {
                    proof {
                        assert forall|rest: Seq<Reply<S>>| #[trigger]
                            here(replies(step) + rest) == (Trace::<S, PointModel<S>> {
                                queries: queries(step),
                                result: Err(e@),
                            }) by {
                            assert(first(replies(step) + rest).queries == queries(step));
                        }
                        leads_to_end(run, log, here, step, Err(e@));
                    }
                    return Err(e);
                },
                Ok(next) => {
                    previous = point;
                    point = next;
                    n = n + 1;
                    proof {
                        let there: Computation<S, PointModel<S>> = |answers: Seq<Reply<S>>|
                            line.bracket(previous@, point@, n as nat, more as nat, answers);
                        assert forall|rest: Seq<Reply<S>>| #[trigger]
                            here(replies(step) + rest) == prepend(queries(step), there(rest)) by {
                            assert(first(replies(step) + rest).queries == queries(step));
                            assert((replies(step) + rest).skip(queries(step).len() as int)
                                =~= rest);
                        }
                        leads_on(run, log, here, step, there);
                        log = log + step;
                    }
                },
            }
        }
    }
    let ghost here: Computation<S, PointModel<S>> = |answers: Seq<Reply<S>>|
        line.bracket(previous@, point@, n as nat, more as nat, answers);
    assert(leads(run, log, here));
    let start: Interval<S> = match interval {
        Some(between) => between,
        None => {
            let origin: Point<S> = Point {
                t: S::literal(0, 0),
                loss: f0,
                gradient: copied(g0),
                slope: gtd0,
            };
            assert(origin@ =~= line.start());
            Interval::of(origin, point.duplicate())
        },
    };
    let ghost start_model = start@;
    assert(line.bracket_move(previous@, point@, n as nat, more as nat) == BracketMove::Zoom(
        start_model,
    ));
    let ghost asked = *closure;
    let zoomed: Result<(Point<S>, usize), AutodiffError> = zoom_in(
        closure,
        slot_shapes,
        x,
        d,
        f0,
        gtd0,
        start,
        n,
        more,
        Ghost(line),
    );
    proof {
        let last: Computation<S, PointModel<S>> = |answers: Seq<Reply<S>>|
            line.zoom(start_model, false, n as nat, more as nat, answers);
        let step = choose|step: Seq<Evaluation<S>>|
            {
                &&& #[trigger] continues(asked, *closure, step)
                &&& finishes(last, step, searched(zoomed))
                &&& step.len() <= more - n
                &&& zoomed matches Ok((_, evaluations)) ==> evaluations == step.len()
            };
        assert(finishes(here, step, searched(zoomed))) by {
            assert forall|rest: Seq<Reply<S>>| #[trigger]
                here(replies(step) + rest) == (Trace {
                    queries: queries(step),
                    result: searched(zoomed),
                }) by {
                assert(last(replies(step) + rest).queries == queries(step));
            }
        }
        leads_to_end(run, log, here, step, searched(zoomed));
        continues_on(objective, log, asked, step, *closure);
        log = log + step;
        if zoomed is Ok {
            let found = zoomed->Ok_0.0@;
            finished_search_never_raises_the_loss(line, t0, max_ls as nat, log, found);
        }
    }
    match zoomed {
        Err(e) => Err(e),
        Ok((low, evaluations)) => Ok((low, n + 1 + evaluations)),
    }
}

proof fn zoom_stays_within_its_budget<S: Single>(
    line: Line<S>,
    interval: IntervalModel<S>,
    close_before: bool,
    n: nat,
    more: nat,
    answers: Seq<Reply<S>>,
)
    requires
        n <= more,
    ensures
        line.zoom(interval, close_before, n, more, answers).queries.len() <= more - n,
    decreases more - n,
{
    if n < more && !line.negligible(interval) {
        let (t, close) = line.zoom_distance(interval, close_before);
        let found = line.probe("Lbfgs::strong_wolfe: g_new·d (gtd_new, zoom)", t, answers);
        if let Ok(point) = found.result {
            let (next, done) = line.narrowed(interval, point);
            if !done {
                zoom_stays_within_its_budget(
                    line,
                    next,
                    close,
                    n + 1,
                    more,
                    answers.skip(found.queries.len() as int),
                );
            }
        }
    }
}

proof fn bracket_stays_within_its_budget<S: Single>(
    line: Line<S>,
    previous: PointModel<S>,
    point: PointModel<S>,
    n: nat,
    more: nat,
    answers: Seq<Reply<S>>,
)
    requires
        n <= more,
    ensures
        line.bracket(previous, point, n, more, answers).queries.len() <= more - n,
    decreases more - n,
{
    match line.bracket_move(previous, point, n, more) {
        BracketMove::Accept(_) => {},
        BracketMove::Zoom(interval) => {
            zoom_stays_within_its_budget(line, interval, false, n, more, answers);
        },
        BracketMove::Extend(t) => {
            let found = line.probe(
                "Lbfgs::strong_wolfe: g_new·d (gtd_new, bracket search)",
                t,
                answers,
            );
            if let Ok(next) = found.result {
                bracket_stays_within_its_budget(
                    line,
                    point,
                    next,
                    n + 1,
                    more,
                    answers.skip(found.queries.len() as int),
                );
            }
        },
    }
}

/// A line search evaluates the objective at most as often as its budget allows,
/// its first evaluation included.
pub proof fn line_search_stays_within_its_budget<S: Single>(
    line: Line<S>,
    t: S,
    budget: nat,
    answers: Seq<Reply<S>>,
)
    ensures
        line.search(t, budget, answers).queries.len() <= budget,
{
    if budget > 0 {
        let found = line.probe("Lbfgs::strong_wolfe: g_new·d (gtd_new, initial)", t, answers);
        if let Ok(point) = found.result {
            bracket_stays_within_its_budget(
                line,
                line.start(),
                point,
                0,
                (budget - 1) as nat,
                answers.skip(found.queries.len() as int),
            );
        }
    }
}

/// A line search without a budget evaluates nothing and stays where it starts.
pub proof fn line_search_without_budget_stays<S: Single>(
    line: Line<S>,
    t: S,
    answers: Seq<Reply<S>>,
)
    ensures
        line.search(t, 0, answers) == (Trace::<S, PointModel<S>> {
            queries: Seq::empty(),
            result: Ok::<_, ErrorModel>(line.start()),
        }),
{
}

/// Whether a line does not lead uphill: it starts from a finite loss, its slope there
/// is finite and not above zero, and there is a coordinate to move along.
pub open spec fn leads_down<S: Single>(line: Line<S>) -> bool {
    &&& line.loss.finite()
    &&& line.slope.finite()
    &&& line.slope.at_most(zero())
    &&& line.origin.len() > 0
}

/// The literal numbers that a search multiplies distances by.
proof fn search_constants<S: Single>()
    ensures
        in_unit_range(S::decimal(1, -4)),
        in_unit_range(S::decimal(1, -2)),
        S::decimal(10, 0).finite(),
        one::<S>().at_most(S::decimal(10, 0)),
{
    S::decimals(0, 0, 0);
    S::decimals(0, 0, 1);
    S::decimals(0, 0, 2);
    S::decimals(0, 0, 3);
    S::decimals(1, 10, 0);
    S::decimals(10, 10, 1);
    S::decimals(100, 100, 2);
    S::decimals(1000, 1000, 3);
    S::decimals(0, 1, 4);
    S::decimals(1, 10000, 4);
    S::decimals(0, 1, 2);
    S::decimals(1, 100, 2);
    S::decimals(10, 10, 0);
}

proof fn one_is_at_most_the_other<S: Single>(a: S, b: S)
    requires
        a.finite(),
        b.finite(),
    ensures
        a.at_most(a),
        a.at_most(b) || b.at_most(a),
{
    a.order(b, b);
    b.order(a, a);
}

/// A probe that succeeds has a finite loss, at a distance that is finite.
proof fn probed_point_is_finite<S: Single>(
    line: Line<S>,
    label: &str,
    t: S,
    answers: Seq<Reply<S>>,
)
    requires
        line.origin.len() > 0,
    ensures
        line.probe(label, t, answers).result matches Ok(point) ==> {
            &&& point.t == t
            &&& t.finite()
            &&& point.loss.finite()
        },
{
    if line.probe(label, t, answers).result is Ok {
        assert(line.point(t)[0].finite());
        t.fused_operands(line.direction[0], line.origin[0]);
    }
}

proof fn point_that_is_low_enough_is_no_higher<S: Single>(line: Line<S>, point: PointModel<S>)
    requires
        leads_down(line),
        point.t.finite(),
        zero::<S>().at_most(point.t),
        point.loss.finite(),
        !line.too_high(point),
    ensures
        point.loss.at_most(line.loss),
{
    let c = S::decimal(1, -4);
    search_constants::<S>();
    let share = c.times(point.t);
    point.t.signs(c);
    c.signs(point.t);
    share.signs(line.slope);
    let fall = share.times(line.slope);
    line.loss.signs(fall);
    let bound = line.loss.plus(fall);
    bound.order(line.loss, line.loss);
    point.loss.order(point.loss, point.loss);
    bound.order(point.loss, point.loss);
    point.loss.order(bound, line.loss);
}

/// The next distance of a search for an interval is not below the last one.
proof fn next_distance_is_no_smaller<S: Single>(
    line: Line<S>,
    previous: PointModel<S>,
    point: PointModel<S>,
    n: nat,
    more: nat,
)
    requires
        previous.t.finite(),
        point.t.finite(),
        zero::<S>().at_most(previous.t),
        previous.t.at_most(point.t),
    ensures
        line.bracket_move(previous, point, n, more) matches BracketMove::Extend(t)
            ==> point.t.at_most(t),
{
    let t = point.t;
    search_constants::<S>();
    zero::<S>().order(previous.t, t);
    previous.t.signs(t);
    let ahead = t.minus(previous.t);
    let part = S::decimal(1, -2).times(ahead);
    S::decimal(1, -2).signs(ahead);
    t.signs(part);
    t.signs(S::decimal(10, 0));
    let low = t.plus(part);
    let high = t.times(S::decimal(10, 0));
    t.midpoint(low, high);
    if let BracketMove::Extend(next) = line.bracket_move(previous, point, n, more) {
        t.order(low, low);
        t.order(high, high);
        if next != low.plus(high).over(S::decimal(2, 0)) {
            let minimum = choose|minimum: S| #[trigger] minimum.larger(low).smaller(high) == next;
            let above = minimum.larger(low);
            low.extremes(minimum);
            low.order(above, above);
            t.order(low, above);
            above.extremes(high);
        }
    }
}

proof fn interval_keeps_the_lower_end<S: Single>(first: PointModel<S>, second: PointModel<S>)
    requires
        first.loss.finite(),
        second.loss.finite(),
    ensures
        IntervalModel::of(first, second).low().loss.at_most(first.loss),
        IntervalModel::of(first, second).low().loss.at_most(second.loss),
{
    one_is_at_most_the_other(first.loss, second.loss);
    one_is_at_most_the_other(second.loss, first.loss);
}

proof fn zoom_never_raises_the_loss<S: Single>(
    line: Line<S>,
    interval: IntervalModel<S>,
    close_before: bool,
    n: nat,
    more: nat,
    answers: Seq<Reply<S>>,
)
    requires
        line.origin.len() > 0,
        interval.first.loss.finite(),
        interval.second.loss.finite(),
        interval.low().loss.at_most(line.loss),
    ensures
        line.zoom(interval, close_before, n, more, answers).result matches Ok(found)
            ==> found.loss.at_most(line.loss),
    decreases more - n,
{
    if n < more && !line.negligible(interval) {
        let (t, close) = line.zoom_distance(interval, close_before);
        let found = line.probe("Lbfgs::strong_wolfe: g_new·d (gtd_new, zoom)", t, answers);
        probed_point_is_finite(line, "Lbfgs::strong_wolfe: g_new·d (gtd_new, zoom)", t, answers);
        if let Ok(point) = found.result {
            let (next, done) = line.narrowed(interval, point);
            let low = interval.low();
            one_is_at_most_the_other(low.loss, point.loss);
            let wider = interval.with_high(point);
            interval_keeps_the_lower_end(wider.first, wider.second);
            point.loss.order(low.loss, line.loss);
            next.low().loss.order(low.loss, line.loss);
            if !done {
                zoom_never_raises_the_loss(
                    line,
                    next,
                    close,
                    n + 1,
                    more,
                    answers.skip(found.queries.len() as int),
                );
            }
        }
    }
}

proof fn bracket_never_raises_the_loss<S: Single>(
    line: Line<S>,
    previous: PointModel<S>,
    point: PointModel<S>,
    n: nat,
    more: nat,
    answers: Seq<Reply<S>>,
)
    requires
        leads_down(line),
        previous.loss.finite(),
        previous.loss.at_most(line.loss),
        point.loss.finite(),
        previous.t.finite(),
        point.t.finite(),
        zero::<S>().at_most(previous.t),
        previous.t.at_most(point.t),
    ensures
        line.bracket(previous, point, n, more, answers).result matches Ok(found)
            ==> found.loss.at_most(line.loss),
    decreases more - n,
{
    zero::<S>().order(previous.t, point.t);
    if !line.too_high(point) {
        point_that_is_low_enough_is_no_higher(line, point);
    }
    match line.bracket_move(previous, point, n, more) {
        BracketMove::Accept(_) => {},
        BracketMove::Zoom(interval) => {
            interval_keeps_the_lower_end(previous, point);
            interval_keeps_the_lower_end(line.start(), point);
            interval.low().loss.order(previous.loss, line.loss);
            zoom_never_raises_the_loss(line, interval, false, n, more, answers);
        },
        BracketMove::Extend(t) => {
            let found = line.probe(
                "Lbfgs::strong_wolfe: g_new·d (gtd_new, bracket search)",
                t,
                answers,
            );
            probed_point_is_finite(
                line,
                "Lbfgs::strong_wolfe: g_new·d (gtd_new, bracket search)",
                t,
                answers,
            );
            next_distance_is_no_smaller(line, previous, point, n, more);
            if let Ok(next) = found.result {
                bracket_never_raises_the_loss(
                    line,
                    point,
                    next,
                    n + 1,
                    more,
                    answers.skip(found.queries.len() as int),
                );
            }
        },
    }
}

/// A line search that does not set out uphill or backwards never makes the loss
/// worse: what it finds has at most the loss of the point it starts from.
pub proof fn line_search_never_raises_the_loss<S: Single>(
    line: Line<S>,
    t: S,
    budget: nat,
    answers: Seq<Reply<S>>,
)
    requires
        leads_down(line),
        zero::<S>().at_most(t),
    ensures
        line.search(t, budget, answers).result matches Ok(found) ==> found.loss.at_most(line.loss),
{
    line.loss.order(line.loss, line.loss);
    zero::<S>().unit_interval(zero());
    zero::<S>().order(t, t);
    if budget > 0 {
        let found = line.probe("Lbfgs::strong_wolfe: g_new·d (gtd_new, initial)", t, answers);
        probed_point_is_finite(line, "Lbfgs::strong_wolfe: g_new·d (gtd_new, initial)", t, answers);
        if let Ok(point) = found.result {
            bracket_never_raises_the_loss(
                line,
                line.start(),
                point,
                0,
                (budget - 1) as nat,
                answers.skip(found.queries.len() as int),
            );
        }
    }
}

proof fn finished_search_never_raises_the_loss<S: Single>(
    line: Line<S>,
    t: S,
    budget: nat,
    log: Seq<Evaluation<S>>,
    found: PointModel<S>,
)
    requires
        finishes(|answers: Seq<Reply<S>>| line.search(t, budget, answers), log, Ok(found)),
    ensures
        leads_down(line) && zero::<S>().at_most(t) ==> found.loss.at_most(line.loss),
{
    let run: Computation<S, PointModel<S>> = |answers: Seq<Reply<S>>|
        line.search(t, budget, answers);
    let rest = Seq::<Reply<S>>::empty();
    assert(run(replies(log) + rest).result == Ok::<_, ErrorModel>(found));
    if leads_down(line) && zero::<S>().at_most(t) {
        line_search_never_raises_the_loss(line, t, budget, replies(log) + rest);
    }
}

/// Whether a point is where the line starts, or has the loss and the gradient that a
/// function has there.
pub open spec fn lies_on<S: Single>(
    landscape: Landscape<S>,
    line: Line<S>,
    point: PointModel<S>,
) -> bool {
    ||| point == line.start()
    ||| evaluated(line.shapes, landscape(unflat(line.point(point.t), line.shapes))) == Ok::<
        _,
        ErrorModel,
    >((point.loss, point.gradient))
}

proof fn probed_point_lies_on_the_landscape<S: Single>(
    landscape: Landscape<S>,
    line: Line<S>,
    label: &str,
    t: S,
    answers: Seq<Reply<S>>,
)
    requires
        answered_by(landscape, line.probe(label, t, answers).queries, answers),
    ensures
        line.probe(label, t, answers).result matches Ok(point) ==> lies_on(landscape, line, point),
{
    if line.probe(label, t, answers).result is Ok {
        assert(answers[0] == landscape(line.probe(label, t, answers).queries[0]));
    }
}

proof fn zoom_stays_on_the_landscape<S: Single>(
    landscape: Landscape<S>,
    line: Line<S>,
    interval: IntervalModel<S>,
    close_before: bool,
    n: nat,
    more: nat,
    answers: Seq<Reply<S>>,
)
    requires
        lies_on(landscape, line, interval.first),
        lies_on(landscape, line, interval.second),
        answered_by(
            landscape,
            line.zoom(interval, close_before, n, more, answers).queries,
            answers,
        ),
    ensures
        line.zoom(interval, close_before, n, more, answers).result matches Ok(found) ==> lies_on(
            landscape,
            line,
            found,
        ),
    decreases more - n,
{
    if n < more && !line.negligible(interval) {
        let (t, close) = line.zoom_distance(interval, close_before);
        let found = line.probe("Lbfgs::strong_wolfe: g_new·d (gtd_new, zoom)", t, answers);
        if let Ok(point) = found.result {
            let rest = answers.skip(found.queries.len() as int);
            let (next, done) = line.narrowed(interval, point);
            let tail = if done {
                Trace { queries: Seq::empty(), result: Ok(next.low()) }
            } else {
                line.zoom(next, close, n + 1, more, rest)
            };
            assert(line.zoom(interval, close_before, n, more, answers) == prepend(
                found.queries,
                tail,
            ));
            answered_in_parts(landscape, found.queries, tail.queries, answers);
            probed_point_lies_on_the_landscape(
                landscape,
                line,
                "Lbfgs::strong_wolfe: g_new·d (gtd_new, zoom)",
                t,
                answers,
            );
            if !done {
                zoom_stays_on_the_landscape(landscape, line, next, close, n + 1, more, rest);
            }
        }
    }
}

proof fn bracket_stays_on_the_landscape<S: Single>(
    landscape: Landscape<S>,
    line: Line<S>,
    previous: PointModel<S>,
    point: PointModel<S>,
    n: nat,
    more: nat,
    answers: Seq<Reply<S>>,
)
    requires
        lies_on(landscape, line, previous),
        lies_on(landscape, line, point),
        answered_by(landscape, line.bracket(previous, point, n, more, answers).queries, answers),
    ensures
        line.bracket(previous, point, n, more, answers).result matches Ok(found) ==> lies_on(
            landscape,
            line,
            found,
        ),
    decreases more - n,
{
    match line.bracket_move(previous, point, n, more) {
        BracketMove::Accept(_) => {},
        BracketMove::Zoom(interval) => {
            zoom_stays_on_the_landscape(landscape, line, interval, false, n, more, answers);
        },
        BracketMove::Extend(t) => {
            let found = line.probe(
                "Lbfgs::strong_wolfe: g_new·d (gtd_new, bracket search)",
                t,
                answers,
            );
            if let Ok(next) = found.result {
                let rest = answers.skip(found.queries.len() as int);
                let tail = line.bracket(point, next, n + 1, more, rest);
                assert(line.bracket(previous, point, n, more, answers) == prepend(
                    found.queries,
                    tail,
                ));
                answered_in_parts(landscape, found.queries, tail.queries, answers);
                probed_point_lies_on_the_landscape(
                    landscape,
                    line,
                    "Lbfgs::strong_wolfe: g_new·d (gtd_new, bracket search)",
                    t,
                    answers,
                );
                bracket_stays_on_the_landscape(landscape, line, point, next, n + 1, more, rest);
            }
        },
    }
}

/// A line search of a function that answers by the query alone finds the point it
/// starts from, or one with the loss and the gradient that the function has there.
pub proof fn line_search_stays_on_the_landscape<S: Single>(
    landscape: Landscape<S>,
    line: Line<S>,
    t: S,
    budget: nat,
    answers: Seq<Reply<S>>,
)
    requires
        answered_by(landscape, line.search(t, budget, answers).queries, answers),
    ensures
        line.search(t, budget, answers).result matches Ok(found) ==> lies_on(
            landscape,
            line,
            found,
        ),
{
    if budget > 0 {
        let found = line.probe("Lbfgs::strong_wolfe: g_new·d (gtd_new, initial)", t, answers);
        if let Ok(point) = found.result {
            let rest = answers.skip(found.queries.len() as int);
            let tail = line.bracket(line.start(), point, 0, (budget - 1) as nat, rest);
            assert(line.search(t, budget, answers) == prepend(found.queries, tail));
            answered_in_parts(landscape, found.queries, tail.queries, answers);
            probed_point_lies_on_the_landscape(
                landscape,
                line,
                "Lbfgs::strong_wolfe: g_new·d (gtd_new, initial)",
                t,
                answers,
            );
            bracket_stays_on_the_landscape(
                landscape,
                line,
                line.start(),
                point,
                0,
                (budget - 1) as nat,
                rest,
            );
        }
    }
}

/// The literal share of the slope that is still level lies strictly between zero and one.
proof fn level_share<S: Single>()
    ensures
        zero::<S>().less(S::decimal(9, -1)),
        S::decimal(9, -1).less(one()),
        S::decimal(9, -1).finite(),
{
    S::decimals(0, 0, 0);
    S::decimals(1, 1, 0);
    S::decimals(0, 9, 1);
    S::decimals(9, 10, 1);
}

/// The loss that falls along a straight line with the slope at the start, or faster, is
/// low enough, and so is every lower loss at the same distance.
pub proof fn losses_below_the_tangent_are_low_enough<S: Single>(
    line: Line<S>,
    point: PointModel<S>,
    lower: PointModel<S>,
)
    requires
        leads_down(line),
        non_negative(point.t),
        is_number(line.loss.plus(S::decimal(1, -4).times(point.t).times(line.slope))),
        is_number(line.loss.plus(point.t.times(line.slope))),
        lower.t == point.t,
        is_number(lower.loss),
    ensures
        point.loss.at_most(line.loss.plus(point.t.times(line.slope))) ==> !line.too_high(point),
        !line.too_high(point) && lower.loss.at_most(point.loss) ==> !line.too_high(lower),
{
    let c = S::decimal(1, -4);
    let share = c.times(point.t);
    search_constants::<S>();
    let (fall, full) = (share.times(line.slope), point.t.times(line.slope));
    let (bound, tangent) = (line.loss.plus(fall), line.loss.plus(full));
    point.t.signs(c);
    line.loss.fused_operands(fall, fall);
    line.loss.fused_operands(full, full);
    share.order(point.t, line.slope);
    full.order(fall, line.loss);
    line.loss.neutral(fall);
    line.loss.neutral(full);
    point.loss.order(tangent, bound);
    bound.order(point.loss, point.loss);
    point.loss.order(bound, bound);
    lower.loss.order(point.loss, bound);
    bound.order(lower.loss, point.loss);
    bound.order(point.loss, bound);
}

/// A point without a slope is level, a point that is no steeper than a level one is
/// level too, and no level point is steeper than the start.
pub proof fn level_points_are_flatter_than_the_start<S: Single>(
    line: Line<S>,
    point: PointModel<S>,
    flatter: PointModel<S>,
)
    requires
        leads_down(line),
        is_number(S::decimal(9, -1).negated().times(line.slope)),
    ensures
        point.slope == zero::<S>() ==> line.level(point),
        line.level(point) && flatter.slope.magnitude().at_most(point.slope.magnitude())
            ==> line.level(flatter),
        line.level(point) && is_number(line.slope.negated()) ==> point.slope.magnitude().at_most(
            line.slope.negated(),
        ),
{
    let share = S::decimal(9, -1);
    let bound = share.negated().times(line.slope);
    level_share::<S>();
    zero_is_zero::<S>();
    zero::<S>().order(share, share);
    share.order(one(), one());
    share.signs(one());
    share.negated().signs(line.slope);
    zero::<S>().signs(zero());
    zero::<S>().magnitude().order(zero(), bound);
    flatter.slope.magnitude().order(point.slope.magnitude(), bound);
    line.slope.neutral(one());
    one::<S>().negated().order(share.negated(), line.slope);
    point.slope.magnitude().order(bound, line.slope.negated());
}

/// A point that ends a search because it meets the conditions has a loss that is not
/// above the start by more than the sufficient decrease allows, and a slope that is
/// level: at most nine tenths of the slope at the start. A point that meets both, and is
/// below what came before, ends the search while there are points left to look at.
pub proof fn accepted_points_meet_the_conditions<S: Single>(
    line: Line<S>,
    previous: PointModel<S>,
    point: PointModel<S>,
    interval: IntervalModel<S>,
    n: nat,
    more: nat,
)
    ensures
        ({
            let low = !line.loss.plus(
                S::decimal(1, -4).times(point.t).times(line.slope),
            ).less(point.loss);
            let level = point.slope.magnitude().at_most(
                S::decimal(9, -1).negated().times(line.slope),
            );
            &&& line.bracket_move(previous, point, n, more) matches BracketMove::Accept(found)
                ==> found == point && low && level && n < more
            &&& low && level && n < more && !(n > 1 && previous.loss.at_most(point.loss))
                ==> line.bracket_move(previous, point, n, more) == BracketMove::Accept(point)
            &&& low && level && !interval.low().loss.at_most(point.loss) ==> line.narrowed(
                interval,
                point,
            ).1
            &&& line.narrowed(interval, point).1 ==> {
                &&& low && level
                &&& line.narrowed(interval, point).0.low() == point
                &&& !interval.low().loss.at_most(point.loss)
            }
        }),
{
}

/// An interval that is narrowed down has the point that was looked at for one of its
/// ends, and one of its old ends for the other. Its lower end is not above the one
/// before, and where the old lower end is kept it stays the lower one.
pub proof fn narrowed_intervals_keep_an_end<S: Single>(
    line: Line<S>,
    interval: IntervalModel<S>,
    point: PointModel<S>,
)
    requires
        interval.low().loss.at_most(interval.high().loss),
        point.loss.finite(),
        interval.low().loss.finite(),
        interval.high().loss.finite(),
    ensures
        ({
            let next = line.narrowed(interval, point).0;
            &&& next.first == point || next.second == point
            &&& next.low().loss.at_most(interval.low().loss)
            &&& next.low() == point || next.low() == interval.low()
            &&& next.high() == point || next.high() == interval.low() || next.high()
                == interval.high()
            &&& point.loss.less(interval.low().loss) && !line.too_high(point) ==> next.low()
                == point
        }),
{
    let low = interval.low();
    low.loss.order(low.loss, low.loss);
    point.loss.order(point.loss, point.loss);
    low.loss.order(point.loss, point.loss);
    point.loss.order(low.loss, low.loss);
    point.loss.order(low.loss, interval.high().loss);
    interval.high().loss.order(low.loss, point.loss);
    low.loss.order(interval.high().loss, point.loss);
}

/// The minimum of the cubic lies between the bounds, or between the two points where
/// there are none.
pub proof fn cubic_minimum_lies_between_its_bounds<S: Real>(
    x1: S,
    f1: S,
    g1: S,
    x2: S,
    f2: S,
    g2: S,
    bounds: Option<(S, S)>,
)
    requires
        ({
            let (low, high) = match bounds {
                Some(b) => b,
                None => if x1.at_most(x2) {
                    (x1, x2)
                } else {
                    (x2, x1)
                },
            };
            &&& zero::<S>().at_most(low)
            &&& low.at_most(high)
            &&& low.plus(high).over(S::decimal(2, 0)).less(low.plus(high))
        }),
    ensures
        ({
            let (low, high) = match bounds {
                Some(b) => b,
                None => if x1.at_most(x2) {
                    (x1, x2)
                } else {
                    (x2, x1)
                },
            };
            let minimum = cubic_minimum(x1, f1, g1, x2, f2, g2, bounds);
            low.at_most(minimum) && minimum.at_most(high)
        }),
{
    let (low, high) = match bounds {
        Some(b) => b,
        None => if x1.at_most(x2) {
            (x1, x2)
        } else {
            (x2, x1)
        },
    };
    let minimum = cubic_minimum(x1, f1, g1, x2, f2, g2, bounds);
    low.order(high, high);
    zero::<S>().order(low, high);
    low.midpoint(low, high);
    high.midpoint(low, high);
    if minimum != low.plus(high).over(S::decimal(2, 0)) {
        let found = choose|found: S| #[trigger] found.larger(low).smaller(high) == minimum;
        let above = found.larger(low);
        low.extremes(found);
        low.order(above, above);
        above.extremes(high);
        high.extremes(above);
        high.order(above, above);
        above.order(high, high);
    }
}

/// The cubic through two points of a parabola is the parabola: with a curvature of one
/// and its lowest point anywhere from zero to two, to four digits, the lowest point is
/// found exactly. Stated of [`Fixed`], in which such products are carried in full.
pub proof fn lowest_point_of_a_parabola_is_found(digits: int, height: int)
    requires
        0 <= digits <= 20_000,
        -1_000_000_000 <= height <= 1_000_000_000,
    ensures
        ({
            let lowest = Fixed { units: (digits * 100_000) as i64 };
            let two = Fixed { units: 2_000_000_000 };
            let nothing = Fixed { units: 0 };
            let f2 = Fixed { units: height as i64 };
            let f1 = Fixed { units: (height + 2 * digits * 100_000 - 2_000_000_000) as i64 };
            cubic_minimum(
                nothing,
                f1,
                Fixed { units: (-digits * 100_000) as i64 },
                two,
                f2,
                Fixed { units: (2_000_000_000 - digits * 100_000) as i64 },
                None,
            ) == lowest
        }),
{
    let c = digits * 100_000;
    let u: int = 1_000_000_000;
    let nothing = Fixed { units: 0 };
    let two = Fixed { units: 2_000_000_000 };
    let f2 = Fixed { units: height as i64 };
    let f1 = Fixed { units: (height + 2 * c - 2 * u) as i64 };
    let g1 = Fixed { units: (-c) as i64 };
    let g2 = Fixed { units: (2 * u - c) as i64 };
    assert(ten_to(9) == 1_000_000_000) by {
        reveal_with_fuel(ten_to, 10);
    }
    let three = Fixed::decimal(3, 0);
    assert(three.units == 3 * u);
    let fall = f1.minus(f2);
    assert(fall.units == 2 * c - 2 * u);
    let triple = three.times(fall);
    assert(triple.units == 6 * c - 6 * u) by {
        assert(three.units * fall.units == 3 * u * (2 * c - 2 * u));
    }
    let back = nothing.minus(two);
    assert(back.units == -2 * u);
    let d1 = g1.plus(g2).minus(triple.over(back));
    assert(triple.over(back).units == 3 * u - 3 * c) by {
        assert(triple.units * u == (6 * c - 6 * u) * u);
    }
    assert(d1.units == c - u);
    let k = digits - 10_000;
    assert(d1.units * d1.units == (k * k) * 10_000_000_000) by (nonlinear_arith)
        requires
            d1.units == k * 100_000,
    ;
    assert(k * k <= 100_000_000) by (nonlinear_arith)
        requires
            -10_000 <= k <= 10_000,
    ;
    assert(k * k >= 0) by (nonlinear_arith);
    assert(d1.times(d1).units == k * k * 10);
    let j = digits * (20_000 - digits);
    assert(g1.units * g2.units == -(j * 10_000_000_000)) by (nonlinear_arith)
        requires
            g1.units == -digits * 100_000,
            g2.units == (20_000 - digits) * 100_000,
            j == digits * (20_000 - digits),
    ;
    assert(0 <= j <= 100_000_000) by (nonlinear_arith)
        requires
            j == digits * (20_000 - digits),
            0 <= digits <= 20_000,
    ;
    assert(g1.times(g2).units == -(j * 10));
    assert(k * k + j == 100_000_000) by (nonlinear_arith)
        requires
            k == digits - 10_000,
            j == digits * (20_000 - digits),
    ;
    let square = d1.times(d1).minus(g1.times(g2));
    assert(square == one::<Fixed>());
    one::<Fixed>().neutral(one());
    let d2 = square.root();
    let top = g2.plus(d2).minus(d1);
    let bottom = g2.minus(g1).plus(Fixed::decimal(2, 0).times(d2));
    Fixed::decimal(2, 0).neutral(one());
    assert(top.units == 4 * u - 2 * c);
    assert(bottom.units == 4 * u);
    let share = top.over(bottom);
    assert(share.units == u - digits * 50_000) by {
        assert(top.units * u == (4 * u - 2 * c) * u);
    }
    let way = two.minus(nothing).times(share);
    assert(way.units == 2 * u - c) by {
        assert(two.units * share.units == 2 * u * (u - digits * 50_000));
    }
    let found = two.minus(way);
    assert(found.units == c);
    assert(nothing.at_most(two));
    assert(Fixed::decimal(0, 0) == nothing);
    assert(found.larger(nothing) == found);
    assert(found.smaller(two) == found);
}

/// A search for an interval that goes on takes a distance that is at least the last one
/// and at most ten times it, unless the sum of the two is beyond all numbers.
pub proof fn extended_distances_are_bounded<S: Single>(
    line: Line<S>,
    previous: PointModel<S>,
    point: PointModel<S>,
    n: nat,
    more: nat,
)
    requires
        previous.t.finite(),
        point.t.finite(),
        zero::<S>().at_most(previous.t),
        previous.t.at_most(point.t),
        line.bracket_move(previous, point, n, more) is Extend,
        ({
            let low = point.t.plus(S::decimal(1, -2).times(point.t.minus(previous.t)));
            let high = point.t.times(S::decimal(10, 0));
            &&& low.at_most(high)
            &&& low.plus(high).over(S::decimal(2, 0)).less(low.plus(high))
        }),
    ensures
        line.bracket_move(previous, point, n, more) matches BracketMove::Extend(t) && {
            &&& point.t.at_most(t)
            &&& t.at_most(point.t.times(S::decimal(10, 0)))
            &&& !line.too_high(point) && !line.level(point) && !zero::<S>().at_most(point.slope)
        },
{
    let t = point.t;
    let low = t.plus(S::decimal(1, -2).times(t.minus(previous.t)));
    let high = t.times(S::decimal(10, 0));
    search_constants::<S>();
    zero::<S>().order(previous.t, t);
    previous.t.signs(t);
    let ahead = t.minus(previous.t);
    let part = S::decimal(1, -2).times(ahead);
    S::decimal(1, -2).signs(ahead);
    t.signs(part);
    zero::<S>().order(t, low);
    next_distance_is_no_smaller(line, previous, point, n, more);
    cubic_minimum_lies_between_its_bounds(
        previous.t,
        previous.loss,
        previous.slope,
        point.t,
        point.loss,
        point.slope,
        Some((low, high)),
    );
}

/// A probe tells the loss and the gradient at its distance. The slope there is not
/// negative where the direction is that of the gradient, not positive where it is the
/// opposite one, and the gradient itself along a single coordinate.
pub proof fn probed_slopes_follow_the_gradient<S: Single>(
    line: Line<S>,
    label: &str,
    t: S,
    answers: Seq<Reply<S>>,
)
    ensures
        line.probe(label, t, answers).result matches Ok(point) ==> {
            &&& point.t == t
            &&& evaluated(line.shapes, answers[0]) == Ok::<_, ErrorModel>(
                (point.loss, point.gradient),
            )
            &&& line.direction == point.gradient ==> zero::<S>().at_most(point.slope)
            &&& line.direction == opposite(point.gradient) ==> point.slope.at_most(zero())
            &&& line.direction == seq![one::<S>()] && point.gradient.len() == 1
                && point.gradient[0].finite() ==> point.slope.same(point.gradient[0])
        },
{
    if let Ok(point) = line.probe(label, t, answers).result {
        squares_are_not_negative(label, point.gradient);
        opposite_vectors_have_no_positive_product(label, point.gradient);
        if line.direction == seq![one::<S>()] && point.gradient.len() == 1
            && point.gradient[0].finite() {
            inner_product_with_one(label, point.gradient[0]);
            assert(point.gradient =~= seq![point.gradient[0]]);
            inner_products_are_symmetric(label, point.gradient, line.direction);
        }
    }
}

proof fn tenth_of_a_number(w: int)
    requires
        w >= 0,
    ensures
        (100_000_000 * w) / 1_000_000_000 == w / 10,
{
    let (q, r) = (w / 10, w % 10);
    assert(w == 10 * q + r && 0 <= r < 10);
    assert(100_000_000 * w == 1_000_000_000 * q + 100_000_000 * r);
    assert((1_000_000_000 * q + 100_000_000 * r) / 1_000_000_000 == q) by (nonlinear_arith)
        requires
            0 <= r < 10,
    ;
}

/// The distance to look at lies inside the interval. One that is close to an end for the
/// second time in a row is a tenth of the interval away from that end. Stated of
/// [`Fixed`], in which differences of distances are exact.
pub proof fn zoomed_distances_stay_inside(
    line: Line<Fixed>,
    interval: IntervalModel<Fixed>,
    close_before: bool,
)
    requires
        0 <= interval.first.t.units <= 1_000_000_000_000_000_000,
        0 <= interval.second.t.units <= 1_000_000_000_000_000_000,
        interval.first.t.units + interval.second.t.units > 0,
    ensures
        ({
            let (t, close) = line.zoom_distance(interval, close_before);
            let (a, b) = (interval.first.t.units, interval.second.t.units);
            let (lower, upper) = if a <= b {
                (a, b)
            } else {
                (b, a)
            };
            let margin = (upper - lower) / 10;
            &&& lower <= t.units <= upper
            &&& close_before ==> !close && lower + margin <= t.units <= upper - margin
        }),
{
    let (first, second) = (interval.first, interval.second);
    let upper = interval.upper_end();
    let lower = interval.lower_end();
    let (low, high) = if first.t.at_most(second.t) {
        (first.t, second.t)
    } else {
        (second.t, first.t)
    };
    assert(ten_to(9) == 1_000_000_000 && ten_to(8) == 100_000_000) by {
        reveal_with_fuel(ten_to, 10);
    }
    assert(upper == high && lower == low);
    let t = cubic_minimum(
        first.t,
        first.loss,
        first.slope,
        second.t,
        second.loss,
        second.slope,
        None,
    );
    let sum = low.units + high.units;
    assert((sum * 1_000_000_000) / 2_000_000_000 < sum);
    cubic_minimum_lies_between_its_bounds(
        first.t,
        first.loss,
        first.slope,
        second.t,
        second.loss,
        second.slope,
        None,
    );
    let way = upper.minus(lower);
    let margin = Fixed::decimal(1, -1).times(way);
    assert(way.units == high.units - low.units);
    let w = way.units as int;
    tenth_of_a_number(w);
    assert(margin.units == w / 10);
    assert(upper.minus(t).units == high.units - t.units);
    assert(t.minus(lower).units == t.units - low.units);
    assert(t.minus(upper).magnitude().units == high.units - t.units);
    assert(t.minus(lower).magnitude().units == t.units - low.units);
}

} // verus!
