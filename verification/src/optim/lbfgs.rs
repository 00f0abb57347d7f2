//! The limited-memory BFGS method, with an optional strong Wolfe line search.
use crate::error::{AutodiffError, ErrorModel, invalid, refused, tell, tell_count, told, told_count};
use crate::number::{
    Real, Single, in_unit_range, is_non_negative, is_number, non_negative, one, zero,
};
use crate::optim::flat::{
    abs_max, abs_sum_f64, alike, alike_vectors_make_alike_tensors, all_countable, difference, dot,
    dot_f64, ensure_finite_slice, flat, flat_has_all_elements, flat_of_finite_tensors_is_finite,
    flatten_tensors, infinite, inner_product_with_one, is_finite_vector, multiple, multiply, negate,
    not_finite, opposite, opposite_vectors_have_no_positive_product, peak, shape_models, shapes_of,
    size_of, squares_are_not_negative, step_along, stepped_along, subtract,
    sum_of_large_magnitudes_is_positive, unflat, unflat_inverts_flat, unflatten_tensors,
    wide_abs_sum, wide_dot,
};
use crate::optim::line_search::{
    Line, Point, PointModel, evaluate, evaluated, found_of, gradients_error, leads_down,
    line_search_never_raises_the_loss, line_search_stays_on_the_landscape,
    line_search_stays_within_its_budget, output_error, searched, strong_wolfe,
};
use crate::optim::slots::{models, repeated};
use crate::optim::trace::{
    Computation, Evaluation, Fallible, Infallible, Landscape, Objective, Reply, Trace, answered_by,
    answered_in_parts, continues, continues_as_it_is, continues_on, finishes, followed, leads,
    leads_on, leads_to_end, leads_to_itself, once, prepend, queries, replies,
};
use crate::tensor::{Tensor, TensorModel, copied, countable, same_shape, shape_mismatch};
use crate::text::{followed_by, followed_by_count, numeral};
use crate::optim::direction::{nothing_added, nothing_taken, zero_is_zero};
use crate::fixed::{Fixed, UNITS, quotient, ten_to};
use vstd::prelude::*;

verus! {

/// How the distance along a search direction is chosen.
#[non_exhaustive]
#[derive(Debug, Clone, Copy, PartialEq, Eq, Structural)]
pub enum LbfgsLineSearch {
    /// The distance is the learning rate.
    FixedStep,
    /// The distance meets the strong Wolfe conditions.
    StrongWolfe,
}

/// Hyperparameters of [`Lbfgs`].
#[derive(Debug, Clone, Copy, PartialEq)]
pub struct LbfgsConfig<S> {
    pub lr: S,
    /// The largest number of iterations in one step.
    pub max_iter: usize,
    /// The number of evaluations after which a step ends, five quarters of
    /// `max_iter` where there is none.
    pub max_eval: Option<usize>,
    /// A step ends where no element of the gradient is larger.
    pub tolerance_grad: S,
    /// A step ends where neither the parameters nor the loss change more.
    pub tolerance_change: S,
    /// The number of earlier updates that are kept.
    pub history_size: usize,
    pub line_search: LbfgsLineSearch,
    /// The largest number of evaluations in one line search.
    pub line_search_steps: usize,
}

impl<S: Single> Default for LbfgsConfig<S> {
    fn default() -> (r: Self)
        ensures
            r == (LbfgsConfig {
                lr: S::decimal(1, 0),
                max_iter: 20,
                max_eval: None,
                tolerance_grad: S::decimal(1, -7),
                tolerance_change: S::decimal(1, -9),
                history_size: 100,
                line_search: LbfgsLineSearch::FixedStep,
                line_search_steps: 25,
            }),
    {
        LbfgsConfig {
            lr: S::literal(1, 0),
            max_iter: 20,
            max_eval: None,
            tolerance_grad: S::literal(1, -7),
            tolerance_change: S::literal(1, -9),
            history_size: 100,
            line_search: LbfgsLineSearch::FixedStep,
            line_search_steps: 25,
        }
    }
}

/// The number of evaluations after which a step ends, or `None` where it does not
/// fit in `usize`.
pub open spec fn evaluation_limit<S>(config: LbfgsConfig<S>) -> Option<usize> {
    match config.max_eval {
        Some(limit) => Some(limit),
        None => if config.max_iter * 5 <= usize::MAX {
            Some((config.max_iter * 5 / 4) as usize)
        } else {
            None
        },
    }
}

impl<S> LbfgsConfig<S> {
    fn resolved_max_eval(&self) -> (r: Option<usize>)
        ensures
            r == evaluation_limit(*self),
    {
        match self.max_eval {
            Some(limit) => Some(limit),
            None => match self.max_iter.checked_mul(5) {
                Some(product) => Some(product / 4),
                None => None,
            },
        }
    }
}

/// The error of a number of iterations from which no limit can be derived.
pub open spec fn limit_overflowed(max_iter: nat) -> ErrorModel {
    ErrorModel::InvalidArgument(
        "Lbfgs::new: max_iter * 5 overflows usize (max_iter="@ + numeral(max_iter)
            + "); pass config.max_eval explicitly to avoid the derived `max_iter * 5 / 4` computation"@,
    )
}

fn refuse_max_iter(max_iter: usize) -> (r: AutodiffError)
    ensures
        r@ == limit_overflowed(max_iter as nat),
{
    let text: String = followed_by_count(
        "Lbfgs::new: max_iter * 5 overflows usize (max_iter=".to_owned(),
        max_iter,
    );
    AutodiffError::InvalidArgument(
        followed_by(
            text,
            "); pass config.max_eval explicitly to avoid the derived `max_iter * 5 / 4` computation",
        ),
    )
}

/// The error of a step with another number of parameters than the first one had.
pub open spec fn lbfgs_slot_count_changed(expected: nat, given: nat) -> ErrorModel {
    ErrorModel::InvalidArgument(
        "Lbfgs::try_step_closure: slot count changed across calls (expected "@ + numeral(expected)
            + ", got "@ + numeral(given)
            + "); Lbfgs state is keyed by call-order slot index and cannot be resized after the first step()"@,
    )
}

fn refuse_lbfgs_slot_count(expected: usize, given: usize) -> (r: AutodiffError)
    ensures
        r@ == lbfgs_slot_count_changed(expected as nat, given as nat),
{
    let text: String = followed_by_count(
        "Lbfgs::try_step_closure: slot count changed across calls (expected ".to_owned(),
        expected,
    );
    let text: String = followed_by_count(followed_by(text, ", got "), given);
    AutodiffError::InvalidArgument(
        followed_by(
            text,
            "); Lbfgs state is keyed by call-order slot index and cannot be resized after the first step()",
        ),
    )
}

/// Why hyperparameters are refused, if they are.
pub open spec fn lbfgs_config_error<S: Single>(config: LbfgsConfig<S>) -> Option<ErrorModel> {
    if !non_negative(config.lr) {
        Some(told("Lbfgs::new: lr must be finite and >= 0.0, got ", config.lr))
    } else if config.max_iter < 1 {
        Some(told_count("Lbfgs::new: max_iter must be >= 1, got ", config.max_iter as nat))
    } else if evaluation_limit(config) is None {
        Some(limit_overflowed(config.max_iter as nat))
    } else if evaluation_limit(config)->0 < 1 {
        Some(
            told_count(
                "Lbfgs::new: max_eval must resolve to >= 1, got ",
                evaluation_limit(config)->0 as nat,
            ),
        )
    } else if !non_negative(config.tolerance_grad) {
        Some(
            told(
                "Lbfgs::new: tolerance_grad must be finite and >= 0.0, got ",
                config.tolerance_grad,
            ),
        )
    } else if !non_negative(config.tolerance_change) {
        Some(
            told(
                "Lbfgs::new: tolerance_change must be finite and >= 0.0, got ",
                config.tolerance_change,
            ),
        )
    } else if config.history_size < 1 {
        Some(told_count("Lbfgs::new: history_size must be >= 1, got ", config.history_size as nat))
    } else if config.line_search_steps < 1 {
        Some(
            told_count(
                "Lbfgs::new: line_search_steps must be >= 1, got ",
                config.line_search_steps as nat,
            ),
        )
    } else {
        None
    }
}

/// An earlier update: how the gradient changed, how the parameters moved, and the
/// inverse of the product of the two.
#[verifier::ext_equal]
pub struct UpdateModel<S> {
    pub change: Seq<S>,
    pub movement: Seq<S>,
    pub inverse: S,
}

/// An [`Lbfgs`] optimizer as a mathematical value.
#[verifier::ext_equal]
pub struct LbfgsModel<S> {
    pub config: LbfgsConfig<S>,
    /// The shapes of the parameters, empty before the first step.
    pub shapes: Seq<Seq<usize>>,
    pub n_iter: nat,
    pub func_evals: nat,
    pub direction: Seq<S>,
    pub t: S,
    /// The earlier updates, oldest first.
    pub history: Seq<UpdateModel<S>>,
    pub scale: S,
    pub gradient: Option<Seq<S>>,
    pub last_loss: Option<S>,
}

struct Update<S> {
    change: Vec<S>,
    movement: Vec<S>,
    inverse: S,
}

impl<S> View for Update<S> {
    type V = UpdateModel<S>;

    closed spec fn view(&self) -> UpdateModel<S> {
        UpdateModel {
            change: self.change@,
            movement: self.movement@,
            inverse: self.inverse,
        }
    }
}

spec fn update_models<S>(history: Seq<Update<S>>) -> Seq<UpdateModel<S>> {
    history.map_values(|u: Update<S>| u@)
}

spec fn vector_model<S>(vector: Option<Vec<S>>) -> Option<Seq<S>> {
    match vector {
        Some(v) => Some(v@),
        None => None,
    }
}

/// Whether what a step leaves behind fits parameters with `size` elements.
pub open spec fn memory_fits<S>(
    direction: Seq<S>,
    history: Seq<UpdateModel<S>>,
    gradient: Option<Seq<S>>,
    size: nat,
) -> bool {
    &&& direction.len() == size
    &&& gradient matches Some(g) && g.len() == size
    &&& forall|i: int|
        0 <= i < history.len() ==> (#[trigger] history[i]).change.len() == size
            && history[i].movement.len() == size
}

/// The limited-memory BFGS optimizer.
pub struct Lbfgs<S: Single> {
    config: LbfgsConfig<S>,
    resolved_max_eval: usize,
    slot_shapes: Vec<Vec<usize>>,
    n_iter: u64,
    func_evals: u64,
    d: Vec<S>,
    t: S,
    history: Vec<Update<S>>,
    h_diag: S,
    prev_flat_grad: Option<Vec<S>>,
    last_loss: Option<S>,
}

impl<S: Single> View for Lbfgs<S> {
    type V = LbfgsModel<S>;

    closed spec fn view(&self) -> LbfgsModel<S> {
        LbfgsModel {
            config: self.config,
            shapes: shape_models(self.slot_shapes@),
            n_iter: self.n_iter as nat,
            func_evals: self.func_evals as nat,
            direction: self.d@,
            t: self.t,
            history: update_models(self.history@),
            scale: self.h_diag,
            gradient: vector_model(self.prev_flat_grad),
            last_loss: self.last_loss,
        }
    }
}

impl<S: Single> LbfgsModel<S> {
    /// An optimizer that has taken no step.
    pub open spec fn fresh(config: LbfgsConfig<S>) -> LbfgsModel<S> {
        LbfgsModel {
            config,
            shapes: Seq::empty(),
            n_iter: 0,
            func_evals: 0,
            direction: Seq::empty(),
            t: zero(),
            history: Seq::empty(),
            scale: one(),
            gradient: None,
            last_loss: None,
        }
    }

    /// The number of evaluations after which a step ends.
    pub open spec fn limit(self) -> usize {
        evaluation_limit(self.config)->0
    }

    /// The largest number of evaluations that a step can make. A step of fixed
    /// distances makes one for each iteration, and only a second one where the limit
    /// is one.
    pub open spec fn most_evaluations(self) -> int {
        match self.config.line_search {
            LbfgsLineSearch::StrongWolfe => self.limit() as int,
            LbfgsLineSearch::FixedStep => if self.limit() < 2 && self.config.max_iter > 1 {
                2
            } else if self.limit() < self.config.max_iter {
                self.limit() as int
            } else {
                self.config.max_iter as int
            },
        }
    }

    /// Whether the state is one that steps lead to.
    pub open spec fn wf(self) -> bool {
        &&& lbfgs_config_error(self.config) is None
        &&& all_countable(self.shapes)
        &&& self.n_iter <= self.func_evals
        &&& self.func_evals > 0 ==> self.shapes.len() > 0
        &&& self.history.len() <= self.config.history_size
        &&& self.n_iter > 0 ==> memory_fits(
            self.direction,
            self.history,
            self.gradient,
            size_of(self.shapes),
        )
    }

}

impl<S: Single> Lbfgs<S> {
    #[verifier::type_invariant]
    spec fn inv(self) -> bool {
        &&& self@.wf()
        &&& evaluation_limit(self.config) == Some(self.resolved_max_eval)
    }

    /// An optimizer that has taken no step.
    pub fn new(config: LbfgsConfig<S>) -> (r: Result<Lbfgs<S>, AutodiffError>)
        ensures
            match r {
                Ok(optimizer) => {
                    &&& lbfgs_config_error(config) is None
                    &&& optimizer@ == LbfgsModel::fresh(config)
                    &&& optimizer@.wf()
                },
                Err(e) => lbfgs_config_error(config) == Some(e@),
            },
    {
        if !is_non_negative(config.lr) {
            return Err(tell("Lbfgs::new: lr must be finite and >= 0.0, got ", config.lr));
        }
        if config.max_iter < 1 {
            return Err(tell_count("Lbfgs::new: max_iter must be >= 1, got ", config.max_iter));
        }
        let resolved_max_eval: usize = match config.resolved_max_eval() {
            Some(limit) => limit,
            None => {
                return Err(refuse_max_iter(config.max_iter));
            },
        };
        if resolved_max_eval < 1 {
            return Err(
                tell_count("Lbfgs::new: max_eval must resolve to >= 1, got ", resolved_max_eval),
            );
        }
        if !is_non_negative(config.tolerance_grad) {
            return Err(
                tell(
                    "Lbfgs::new: tolerance_grad must be finite and >= 0.0, got ",
                    config.tolerance_grad,
                ),
            );
        }
        if !is_non_negative(config.tolerance_change) {
            return Err(
                tell(
                    "Lbfgs::new: tolerance_change must be finite and >= 0.0, got ",
                    config.tolerance_change,
                ),
            );
        }
        if config.history_size < 1 {
            return Err(
                tell_count("Lbfgs::new: history_size must be >= 1, got ", config.history_size),
            );
        }
        if config.line_search_steps < 1 {
            return Err(
                tell_count(
                    "Lbfgs::new: line_search_steps must be >= 1, got ",
                    config.line_search_steps,
                ),
            );
        }
        let slot_shapes: Vec<Vec<usize>> = Vec::new();
        let history: Vec<Update<S>> = Vec::new();
        assert(shape_models(slot_shapes@) =~= Seq::empty());
        assert(update_models(history@) =~= Seq::empty());
        Ok(
            Lbfgs {
                config,
                resolved_max_eval,
                slot_shapes,
                n_iter: 0,
                func_evals: 0,
                d: Vec::new(),
                t: S::literal(0, 0),
                history,
                h_diag: S::literal(1, 0),
                prev_flat_grad: None,
                last_loss: None,
            },
        )
    }

    pub fn config(&self) -> (r: &LbfgsConfig<S>)
        ensures
            *r == self@.config,
    {
        &self.config
    }

    /// Replaces the learning rate and leaves everything else as it is.
    pub fn set_lr(&mut self, new_lr: S) -> (r: Result<(), AutodiffError>)
        ensures
            match r {
                Ok(_) => {
                    &&& non_negative(new_lr)
                    &&& final(self)@ == (LbfgsModel {
                        config: LbfgsConfig { lr: new_lr, ..old(self)@.config },
                        ..old(self)@
                    })
                },
                Err(e) => {
                    &&& !non_negative(new_lr)
                    &&& e@ == told("Lbfgs::set_lr: lr must be finite and >= 0.0, got ", new_lr)
                    &&& final(self)@ == old(self)@
                },
            },
    {
        if !is_non_negative(new_lr) {
            return Err(tell("Lbfgs::set_lr: lr must be finite and >= 0.0, got ", new_lr));
        }
        proof {
            use_type_invariant(&*self);
        }
        self.config.lr = new_lr;
        Ok(())
    }

    /// The loss at which the last step started.
    pub fn last_loss(&self) -> (r: Option<S>)
        ensures
            r == self@.last_loss,
    {
        self.last_loss
    }

    /// The number of iterations of all steps.
    pub fn n_iter(&self) -> (r: u64)
        ensures
            r == self@.n_iter,
    {
        self.n_iter
    }

    /// The number of evaluations of all steps.
    pub fn func_evals(&self) -> (r: u64)
        ensures
            r == self@.func_evals,
    {
        self.func_evals
    }
}

/// The first half of the two-loop recursion: goes through the updates from the
/// newest to the oldest, and gives the reduced vector and one coefficient for each
/// update.
pub open spec fn backward<S: Single>(
    history: Seq<UpdateModel<S>>,
    n: int,
    q: Seq<S>,
) -> Result<(Seq<S>, Seq<S>), ErrorModel>
    decreases n,
{
    if n <= 0 {
        Ok((q, Seq::empty()))
    } else {
        let update = history[n - 1];
        match dot("Lbfgs::try_step_closure: two-loop al_i", update.movement, q) {
            Err(e) => Err(e),
            Ok(product) => {
                let coefficient = product.times(update.inverse);
                match backward(
                    history,
                    n - 1,
                    stepped_along(q, coefficient.negated(), update.change),
                ) {
                    Err(e) => Err(e),
                    Ok((reduced, coefficients)) => Ok((reduced, coefficients.push(coefficient))),
                }
            },
        }
    }
}

/// The second half of the two-loop recursion: goes through the first `n` updates
/// from the oldest to the newest.
pub open spec fn forward<S: Single>(
    history: Seq<UpdateModel<S>>,
    coefficients: Seq<S>,
    n: int,
    start: Seq<S>,
) -> Result<Seq<S>, ErrorModel>
    decreases n,
{
    if n <= 0 {
        Ok(start)
    } else {
        match forward(history, coefficients, n - 1, start) {
            Err(e) => Err(e),
            Ok(r) => {
                let update = history[n - 1];
                match dot("Lbfgs::try_step_closure: two-loop be_i", update.change, r) {
                    Err(e) => Err(e),
                    Ok(product) => Ok(
                        stepped_along(
                            r,
                            coefficients[n - 1].minus(product.times(update.inverse)),
                            update.movement,
                        ),
                    ),
                }
            },
        }
    }
}

/// The search direction that the kept updates and a gradient give.
pub open spec fn quasi_newton<S: Single>(
    history: Seq<UpdateModel<S>>,
    scale: S,
    gradient: Seq<S>,
) -> Result<Seq<S>, ErrorModel> {
    match backward(history, history.len() as int, opposite(gradient)) {
        Err(e) => Err(e),
        Ok((reduced, coefficients)) => match forward(
            history,
            coefficients,
            history.len() as int,
            multiple(reduced, scale),
        ) {
            Err(e) => Err(e),
            Ok(direction) => if is_finite_vector(direction) {
                Ok(direction)
            } else {
                Err(not_finite("Lbfgs::try_step_closure: search direction d"))
            },
        },
    }
}

/// Coefficients of later updates, appended.
spec fn with_later<S>(
    halfway: Result<(Seq<S>, Seq<S>), ErrorModel>,
    later: Seq<S>,
) -> Result<(Seq<S>, Seq<S>), ErrorModel> {
    match halfway {
        Err(e) => Err(e),
        Ok((reduced, coefficients)) => Ok((reduced, coefficients + later)),
    }
}

#[verifier::loop_isolation(false)]
fn search_direction<S: Single>(history: &Vec<Update<S>>, scale: S, gradient: &Vec<S>) -> (r: Result<
    Vec<S>,
    AutodiffError,
>)
    requires
        forall|i: int|
            0 <= i < history@.len() ==> (#[trigger] update_models(history@)[i]).change.len()
                == gradient@.len() && update_models(history@)[i].movement.len() == gradient@.len(),
    ensures
        match r {
            Ok(direction) => {
                &&& quasi_newton(update_models(history@), scale, gradient@) == Ok::<_, ErrorModel>(
                    direction@,
                )
                &&& direction@.len() == gradient@.len()
            },
            Err(e) => quasi_newton(update_models(history@), scale, gradient@) == Err::<Seq<S>, _>(
                e@,
            ),
        },
{
    let ghost updates = update_models(history@);
    let ghost start = opposite(gradient@);
    let n: usize = history.len();
    let mut coefficients: Vec<S> = repeated(S::literal(0, 0), n);
    let mut q: Vec<S> = negate(gradient);
    let mut i: usize = n;
    assert(coefficients@.skip(n as int) =~= Seq::empty());
    proof {
        let halfway = backward(updates, n as int, start);
        if halfway is Ok {
            assert(halfway->Ok_0.1 + Seq::empty() =~= halfway->Ok_0.1);
        }
    }
    while i > 0
        invariant
            i <= n,
            coefficients@.len() == n,
            q@.len() == gradient@.len(),
            backward(updates, n as int, start) == with_later(
                backward(updates, i as int, q@),
                coefficients@.skip(i as int),
            ),
        decreases i,
    {
        let ghost halfway = backward(updates, i as int, q@);
        let ghost later = coefficients@.skip(i as int);
        i = i - 1;
        let update: &Update<S> = &history[i];
        assert(updates[i as int] == update@);
        match dot_f64(
            "Lbfgs::try_step_closure: two-loop al_i",
            update.movement.as_slice(),
            q.as_slice(),
        ) {
            Err(e) => {
                return Err(e);
            },
            Ok(product) => {
                let coefficient: S = product.mul(update.inverse);
                coefficients.set(i, coefficient);
                q = step_along(q.as_slice(), coefficient.neg(), update.change.as_slice());
                proof {
                    let rest = backward(updates, i as int, q@);
                    assert(coefficients@.skip(i as int) =~= seq![coefficient] + later);
                    if rest is Ok {
                        let earlier = rest->Ok_0.1;
                        assert(earlier.push(coefficient) + later =~= earlier
                            + coefficients@.skip(i as int));
                    }
                }
            },
        }
    }
    assert(coefficients@.skip(0) =~= coefficients@);
    assert(Seq::<S>::empty() + coefficients@ =~= coefficients@);
    let ghost reduced = multiple(q@, scale);
    let mut r: Vec<S> = multiply(&q, scale);
    let mut k: usize = 0;
    while k < n
        invariant
            k <= n,
            coefficients@.len() == n,
            r@.len() == gradient@.len(),
            forward(updates, coefficients@, k as int, reduced) == Ok::<_, ErrorModel>(r@),
        decreases n - k,
    {
        let update: &Update<S> = &history[k];
        assert(updates[k as int] == update@);
        match dot_f64(
            "Lbfgs::try_step_closure: two-loop be_i",
            update.change.as_slice(),
            r.as_slice(),
        ) {
            Err(e) => {
                proof {
                    failure_remains(updates, coefficients@, k + 1, n as int, reduced, e@);
                }
                return Err(e);
            },
            Ok(product) => {
                r =
                step_along(
                    r.as_slice(),
                    coefficients[k].sub(product.mul(update.inverse)),
                    update.movement.as_slice(),
                );
            },
        }
        k = k + 1;
    }
    match ensure_finite_slice("Lbfgs::try_step_closure: search direction d", r.as_slice()) {
        Err(e) => Err(e),
        Ok(_) => Ok(r),
    }
}

proof fn failure_remains<S: Single>(
    history: Seq<UpdateModel<S>>,
    coefficients: Seq<S>,
    k: int,
    n: int,
    start: Seq<S>,
    error: ErrorModel,
)
    requires
        0 <= k <= n,
        forward(history, coefficients, k, start) == Err::<Seq<S>, _>(error),
    ensures
        forward(history, coefficients, n, start) == Err::<Seq<S>, _>(error),
    decreases n - k,
{
    if k < n {
        failure_remains(history, coefficients, k + 1, n, start, error);
    }
}

/// The kept updates after a gradient has changed by `change` while the parameters
/// moved by `movement`, and the scale that goes with them.
///
/// A change that does not go along with the movement leaves them as they are.
pub open spec fn remembered<S: Single>(
    history_size: usize,
    history: Seq<UpdateModel<S>>,
    scale: S,
    change: Seq<S>,
    movement: Seq<S>,
) -> Result<(Seq<UpdateModel<S>>, S), ErrorModel> {
    match dot("Lbfgs::try_step_closure: y·s (ys)", change, movement) {
        Err(e) => Err(e),
        Ok(ys) => if S::decimal(1, -10).less(ys) {
            let kept = if history.len() == history_size {
                history.drop_first()
            } else {
                history
            };
            match dot("Lbfgs::try_step_closure: y·y (yy)", change, change) {
                Err(e) => Err(e),
                Ok(yy) => if ys.over(yy).finite() {
                    Ok(
                        (
                            kept.push(
                                UpdateModel { change, movement, inverse: one::<S>().over(ys) },
                            ),
                            ys.over(yy),
                        ),
                    )
                } else {
                    Err(not_finite("Lbfgs::try_step_closure: h_diag (ys/yy)"))
                },
            }
        } else {
            Ok((history, scale))
        },
    }
}

/// A result of remembering an update, as a mathematical value.
spec fn memory_of<S>(r: Result<(Vec<Update<S>>, S), AutodiffError>) -> Result<
    (Seq<UpdateModel<S>>, S),
    ErrorModel,
> {
    match r {
        Ok((history, scale)) => Ok((update_models(history@), scale)),
        Err(e) => Err(e@),
    }
}

fn remember<S: Single>(
    history_size: usize,
    history: Vec<Update<S>>,
    scale: S,
    change: Vec<S>,
    movement: Vec<S>,
) -> (r: Result<(Vec<Update<S>>, S), AutodiffError>)
    requires
        history_size > 0,
        change@.len() == movement@.len(),
    ensures
        memory_of(r) == remembered(
            history_size,
            update_models(history@),
            scale,
            change@,
            movement@,
        ),
{
    let ghost before = update_models(history@);
    let ys: S = match dot_f64(
        "Lbfgs::try_step_closure: y·s (ys)",
        change.as_slice(),
        movement.as_slice(),
    ) {
        Err(e) => {
            return Err(e);
        },
        Ok(ys) => ys,
    };
    if !S::literal(1, -10).lt(ys) {
        return Ok((history, scale));
    }
    let yy: S = match dot_f64(
        "Lbfgs::try_step_closure: y·y (yy)",
        change.as_slice(),
        change.as_slice(),
    ) {
        Err(e) => {
            return Err(e);
        },
        Ok(yy) => yy,
    };
    let ratio: S = ys.div(yy);
    if !ratio.is_finite() {
        return Err(infinite("Lbfgs::try_step_closure: h_diag (ys/yy)"));
    }
    let mut kept: Vec<Update<S>> = history;
    if kept.len() == history_size {
        kept.remove(0);
        assert(update_models(kept@) =~= before.drop_first());
    }
    let ghost shortened = update_models(kept@);
    let update: Update<S> = Update { change, movement, inverse: S::literal(1, 0).div(ys) };
    let ghost last = update@;
    kept.push(update);
    assert(update_models(kept@) =~= shortened.push(last));
    Ok((kept, ratio))
}

/// What a step works on.
#[verifier::ext_equal]
pub struct Progress<S: Single> {
    pub n_iter: nat,
    pub direction: Seq<S>,
    pub t: S,
    pub history: Seq<UpdateModel<S>>,
    pub scale: S,
    /// The gradient that the direction was computed from.
    pub previous: Option<Seq<S>>,
    /// The parameters, the gradient and the loss that were reached.
    pub x: Seq<S>,
    pub gradient: Seq<S>,
    pub loss: S::Wide,
    /// Whether the gradient is small enough.
    pub optimal: bool,
    /// The number of evaluations in this step.
    pub evaluations: nat,
}

impl<S: Single> Progress<S> {
    /// Whether all vectors have `size` elements.
    pub open spec fn fits(self, size: nat) -> bool {
        &&& self.x.len() == size
        &&& self.gradient.len() == size
        &&& self.n_iter > 0 ==> memory_fits(self.direction, self.history, self.previous, size)
    }

    /// The start of an iteration: the new direction and the first distance along
    /// it, with the slope of the loss in that direction.
    pub open spec fn aimed(self, config: LbfgsConfig<S>) -> Result<(Progress<S>, S), ErrorModel> {
        let memory = if self.n_iter == 0 {
            Ok((Seq::<UpdateModel<S>>::empty(), one::<S>()))
        } else {
            remembered(
                config.history_size,
                self.history,
                self.scale,
                difference(self.gradient, self.previous->0),
                multiple(self.direction, self.t),
            )
        };
        match memory {
            Err(e) => Err(e),
            Ok((history, scale)) => {
                let direction = if self.n_iter == 0 {
                    Ok(opposite(self.gradient))
                } else {
                    quasi_newton(history, scale, self.gradient)
                };
                let sum = S::rounded(wide_abs_sum(self.gradient, self.gradient.len() as int));
                match direction {
                    Err(e) => Err(e),
                    Ok(direction) => if self.n_iter == 0 && !sum.finite() {
                        Err(
                            not_finite(
                                "Lbfgs::try_step_closure: sum_abs(flat_grad) for initial step size",
                            ),
                        )
                    } else {
                        let t = if self.n_iter == 0 {
                            one::<S>().smaller(one::<S>().over(sum)).times(config.lr)
                        } else {
                            config.lr
                        };
                        match dot("Lbfgs::try_step_closure: g·d (gtd)", self.gradient, direction) {
                            Err(e) => Err(e),
                            Ok(slope) => Ok(
                                (
                                    Progress {
                                        n_iter: self.n_iter + 1,
                                        direction,
                                        t,
                                        history,
                                        scale,
                                        previous: Some(self.gradient),
                                        ..self
                                    },
                                    slope,
                                ),
                            ),
                        }
                    },
                }
            },
        }
    }
}

struct Work<S: Single> {
    n_iter: u128,
    d: Vec<S>,
    t: S,
    history: Vec<Update<S>>,
    h_diag: S,
    prev_flat_grad: Option<Vec<S>>,
    x: Vec<S>,
    flat_grad: Vec<S>,
    loss: S::Wide,
    opt_cond: bool,
    evaluations: usize,
}

impl<S: Single> View for Work<S> {
    type V = Progress<S>;

    closed spec fn view(&self) -> Progress<S> {
        Progress {
            n_iter: self.n_iter as nat,
            direction: self.d@,
            t: self.t,
            history: update_models(self.history@),
            scale: self.h_diag,
            previous: vector_model(self.prev_flat_grad),
            x: self.x@,
            gradient: self.flat_grad@,
            loss: self.loss,
            optimal: self.opt_cond,
            evaluations: self.evaluations as nat,
        }
    }
}

/// A result of aiming, as a mathematical value.
spec fn aim_of<S: Single>(r: Result<(Work<S>, S), AutodiffError>) -> Result<
    (Progress<S>, S),
    ErrorModel,
> {
    match r {
        Ok((work, slope)) => Ok((work@, slope)),
        Err(e) => Err(e@),
    }
}

fn aim<S: Single>(config: &LbfgsConfig<S>, work: Work<S>, Ghost(size): Ghost<nat>) -> (r: Result<
    (Work<S>, S),
    AutodiffError,
>)
    requires
        lbfgs_config_error(*config) is None,
        work@.fits(size),
        work@.n_iter < u128::MAX,
        work@.history.len() <= config.history_size,
    ensures
        aim_of(r) == work@.aimed(*config),
        r matches Ok((aimed, _)) ==> aimed@.fits(size) && aimed@.history.len()
            <= config.history_size,
{
    let first: bool = work.n_iter == 0;
    let gradient: Vec<S> = copied(work.flat_grad.as_slice());
    let memory: Result<(Vec<Update<S>>, S), AutodiffError> = match work.prev_flat_grad {
        Some(previous) => if first {
            Ok((Vec::new(), S::literal(1, 0)))
        } else {
            remember(
                config.history_size,
                work.history,
                work.h_diag,
                subtract(&work.flat_grad, &previous),
                multiply(&work.d, work.t),
            )
        },
        None => Ok((Vec::new(), S::literal(1, 0))),
    };
    let (history, scale): (Vec<Update<S>>, S) = match memory {
        Err(e) => {
            return Err(e);
        },
        Ok((history, scale)) => (history, scale),
    };
    let direction: Vec<S> = if first {
        assert(update_models(history@) =~= Seq::empty());
        negate(&work.flat_grad)
    } else {
        match search_direction(&history, scale, &work.flat_grad) {
            Err(e) => {
                return Err(e);
            },
            Ok(direction) => direction,
        }
    };
    let t: S = if first {
        let unit: S = S::literal(1, 0);
        let sum: S = S::round(abs_sum_f64(work.flat_grad.as_slice()));
        if !sum.is_finite() {
            return Err(
                infinite("Lbfgs::try_step_closure: sum_abs(flat_grad) for initial step size"),
            );
        }
        unit.min(unit.div(sum)).mul(config.lr)
    } else {
        config.lr
    };
    match dot_f64(
        "Lbfgs::try_step_closure: g·d (gtd)",
        work.flat_grad.as_slice(),
        direction.as_slice(),
    ) {
        Err(e) => Err(e),
        Ok(slope) => Ok(
            (
                Work {
                    n_iter: work.n_iter + 1,
                    d: direction,
                    t,
                    history,
                    h_diag: scale,
                    prev_flat_grad: Some(gradient),
                    x: work.x,
                    flat_grad: work.flat_grad,
                    loss: work.loss,
                    opt_cond: work.opt_cond,
                    evaluations: work.evaluations,
                },
                slope,
            ),
        ),
    }
}

/// The settings of a step that do not change while it runs.
pub struct Setting<S> {
    pub config: LbfgsConfig<S>,
    pub shapes: Seq<Seq<usize>>,
    pub limit: usize,
}

impl<S: Single> Setting<S> {
    pub open spec fn wf(self) -> bool {
        &&& lbfgs_config_error(self.config) is None
        &&& all_countable(self.shapes)
        &&& self.limit == evaluation_limit(self.config)->0
    }

    /// Whether a gradient is small enough to stop.
    pub open spec fn is_optimal(self, gradient: Seq<S>) -> bool {
        peak(gradient).at_most(self.config.tolerance_grad)
    }

    /// The number of evaluations that a line search may make.
    pub open spec fn budget(self, evaluations: nat) -> nat {
        let left = self.limit - evaluations;
        if self.config.line_search_steps <= left {
            self.config.line_search_steps as nat
        } else {
            left as nat
        }
    }

    /// The line along which an iteration searches.
    pub open spec fn line(self, progress: Progress<S>, slope: S) -> Line<S> {
        Line {
            shapes: self.shapes,
            origin: progress.x,
            direction: progress.direction,
            loss: S::rounded(progress.loss),
            gradient: progress.gradient,
            slope,
        }
    }

    /// Moves to the point that the line search finds.
    pub open spec fn moved_by_search(
        self,
        progress: Progress<S>,
        slope: S,
        answers: Seq<Reply<S>>,
    ) -> Trace<S, Progress<S>> {
        let found = self.line(progress, slope).search(
            progress.t,
            self.budget(progress.evaluations),
            answers,
        );
        Trace {
            queries: found.queries,
            result: match found.result {
                Err(e) => Err(e),
                Ok(point) => {
                    let x = stepped_along(progress.x, point.t, progress.direction);
                    if is_finite_vector(x) {
                        Ok(
                            Progress {
                                x,
                                t: point.t,
                                loss: point.loss.widened(),
                                gradient: point.gradient,
                                optimal: self.is_optimal(point.gradient),
                                evaluations: progress.evaluations + found.queries.len(),
                                ..progress
                            },
                        )
                    } else {
                        Err(not_finite("Lbfgs::try_step_closure: x += t*d (strong Wolfe)"))
                    }
                },
            },
        }
    }

    /// Moves by the fixed distance. The last iteration of a step evaluates nothing
    /// any more.
    pub open spec fn moved_by_distance(
        self,
        progress: Progress<S>,
        is_last: bool,
        answers: Seq<Reply<S>>,
    ) -> Trace<S, Progress<S>> {
        let x = stepped_along(progress.x, progress.t, progress.direction);
        if !is_finite_vector(x) {
            Trace {
                queries: Seq::empty(),
                result: Err(not_finite("Lbfgs::try_step_closure: x += t*d (fixed step)")),
            }
        } else if is_last {
            Trace { queries: Seq::empty(), result: Ok(Progress { x, ..progress }) }
        } else {
            Trace {
                queries: seq![unflat(x, self.shapes)],
                result: match evaluated(self.shapes, answers[0]) {
                    Err(e) => Err(e),
                    Ok((loss, gradient)) => Ok(
                        Progress {
                            x,
                            loss: loss.widened(),
                            gradient,
                            optimal: self.is_optimal(gradient),
                            evaluations: progress.evaluations + 1,
                            ..progress
                        },
                    ),
                },
            }
        }
    }

    pub open spec fn moved(
        self,
        progress: Progress<S>,
        slope: S,
        is_last: bool,
        answers: Seq<Reply<S>>,
    ) -> Trace<S, Progress<S>> {
        match self.config.line_search {
            LbfgsLineSearch::StrongWolfe => self.moved_by_search(progress, slope, answers),
            LbfgsLineSearch::FixedStep => self.moved_by_distance(progress, is_last, answers),
        }
    }

    /// Whether no further iteration follows one that started with the given loss.
    pub open spec fn is_over(
        self,
        loss_before: S::Wide,
        progress: Progress<S>,
        is_last: bool,
    ) -> bool {
        ||| is_last
        ||| progress.evaluations >= self.limit
        ||| progress.optimal
        ||| peak(multiple(progress.direction, progress.t)).at_most(self.config.tolerance_change)
        ||| progress.loss.minus(loss_before).magnitude().less(
            self.config.tolerance_change.widened(),
        )
    }

    /// The iterations that follow the first `done` of a step.
    pub open spec fn iterated(
        self,
        progress: Progress<S>,
        done: nat,
        answers: Seq<Reply<S>>,
    ) -> Trace<S, Progress<S>>
        decreases self.config.max_iter - done,
    {
        if done >= self.config.max_iter {
            Trace { queries: Seq::empty(), result: Ok(progress) }
        } else {
            let is_last = done + 1 == self.config.max_iter;
            match progress.aimed(self.config) {
                Err(e) => Trace { queries: Seq::empty(), result: Err(e) },
                Ok((aimed, slope)) => if self.config.tolerance_change.negated().less(slope) {
                    Trace { queries: Seq::empty(), result: Ok(aimed) }
                } else {
                    followed(
                        self.moved(aimed, slope, is_last, answers),
                        answers,
                        |next: Progress<S>, rest: Seq<Reply<S>>|
                            if self.is_over(aimed.loss, next, is_last) {
                                Trace { queries: Seq::empty(), result: Ok(next) }
                            } else {
                                self.iterated(next, done + 1, rest)
                            },
                    )
                },
            }
        }
    }
}

/// The error of the first parameter, from number `i` on, whose shape has changed.
pub open spec fn shape_error<S>(
    shapes: Seq<Seq<usize>>,
    params: Seq<TensorModel<S>>,
    i: int,
) -> Option<ErrorModel>
    decreases params.len() - i,
{
    if i >= params.len() {
        None
    } else if params[i].shape != shapes[i] {
        Some(ErrorModel::ShapeMismatch { lhs: params[i].shape, rhs: shapes[i] })
    } else {
        shape_error(shapes, params, i + 1)
    }
}

impl<S: Single> LbfgsModel<S> {
    /// The shapes that a step takes its parameters to have.
    pub open spec fn expected_shapes(self, params: Seq<TensorModel<S>>) -> Seq<Seq<usize>> {
        if self.shapes.len() == 0 {
            shapes_of(params)
        } else {
            self.shapes
        }
    }

    /// Why a step with the given parameters is refused, if it is.
    pub open spec fn params_error(self, params: Seq<TensorModel<S>>) -> Option<ErrorModel> {
        let shapes = self.expected_shapes(params);
        if params.len() == 0 {
            Some(refused("Lbfgs::try_step_closure: params must not be empty"))
        } else if params.len() != shapes.len() {
            Some(
                lbfgs_slot_count_changed(self.expected_shapes(params).len(), params.len()),
            )
        } else if shape_error(shapes, params, 0) is Some {
            shape_error(shapes, params, 0)
        } else if !is_finite_vector(flat(params)) {
            Some(not_finite("Lbfgs::try_step_closure: params"))
        } else {
            None
        }
    }

    pub open spec fn setting(self, params: Seq<TensorModel<S>>) -> Setting<S> {
        Setting {
            config: self.config,
            shapes: self.expected_shapes(params),
            limit: self.limit(),
        }
    }

    /// A step after its first evaluation.
    pub open spec fn begun(
        self,
        params: Seq<TensorModel<S>>,
        loss: S,
        gradient: Seq<S>,
    ) -> Progress<S> {
        Progress {
            n_iter: self.n_iter,
            direction: self.direction,
            t: self.t,
            history: self.history,
            scale: self.scale,
            previous: self.gradient,
            x: flat(params),
            gradient,
            loss: loss.widened(),
            optimal: false,
            evaluations: 1,
        }
    }

    /// The optimizer after a step that got as far as `progress`.
    pub open spec fn ended(
        self,
        params: Seq<TensorModel<S>>,
        loss: S,
        progress: Progress<S>,
    ) -> LbfgsModel<S> {
        LbfgsModel {
            config: self.config,
            shapes: self.expected_shapes(params),
            n_iter: progress.n_iter,
            func_evals: self.func_evals + progress.evaluations,
            direction: progress.direction,
            t: progress.t,
            history: progress.history,
            scale: progress.scale,
            gradient: progress.previous,
            last_loss: Some(loss),
        }
    }

    /// What follows the first evaluation of a step.
    pub open spec fn resumed(
        self,
        params: Seq<TensorModel<S>>,
        loss: S,
        gradient: Seq<S>,
        answers: Seq<Reply<S>>,
    ) -> Trace<S, (Seq<TensorModel<S>>, LbfgsModel<S>)> {
        let setting = self.setting(params);
        if setting.is_optimal(gradient) {
            Trace {
                queries: Seq::empty(),
                result: if self.func_evals + 1 <= u64::MAX {
                    Ok(
                        (
                            params,
                            LbfgsModel {
                                shapes: setting.shapes,
                                func_evals: self.func_evals + 1,
                                last_loss: Some(loss),
                                ..self
                            },
                        ),
                    )
                } else {
                    Err(refused("Lbfgs: too many evaluations to count"))
                },
            }
        } else {
            let reached = setting.iterated(self.begun(params, loss, gradient), 0, answers);
            Trace {
                queries: reached.queries,
                result: match reached.result {
                    Err(e) => Err(e),
                    Ok(progress) => if self.func_evals + progress.evaluations <= u64::MAX {
                        Ok(
                            (
                                unflat(progress.x, setting.shapes),
                                self.ended(params, loss, progress),
                            ),
                        )
                    } else {
                        Err(refused("Lbfgs: too many evaluations to count"))
                    },
                },
            }
        }
    }

    /// One step: the parameters that it reaches and the optimizer after it.
    pub open spec fn stepped(self, params: Seq<TensorModel<S>>, answers: Seq<Reply<S>>) -> Trace<
        S,
        (Seq<TensorModel<S>>, LbfgsModel<S>),
    > {
        match self.params_error(params) {
            Some(e) => Trace { queries: Seq::empty(), result: Err(e) },
            None => followed(
                Trace {
                    queries: seq![params],
                    result: evaluated(self.expected_shapes(params), answers[0]),
                },
                answers,
                |found: (S, Seq<S>), rest: Seq<Reply<S>>|
                    self.resumed(params, found.0, found.1, rest),
            ),
        }
    }
}

/// A result of moving, as a mathematical value.
spec fn reached<S: Single>(r: Result<Work<S>, AutodiffError>) -> Result<Progress<S>, ErrorModel> {
    match r {
        Ok(work) => Ok(work@),
        Err(e) => Err(e@),
    }
}

impl<S: Single> Work<S> {
    /// The work with other parameters, and what was found there.
    fn at(self, x: Vec<S>, t: S, loss: S, gradient: Vec<S>, tolerance: S, evaluations: usize) -> (r:
        Work<S>)
        ensures
            r@ == (Progress {
                x: x@,
                t,
                loss: loss.widened(),
                gradient: gradient@,
                optimal: peak(gradient@).at_most(tolerance),
                evaluations: evaluations as nat,
                ..self@
            }),
    {
        let opt_cond: bool = abs_max(gradient.as_slice()).le(tolerance);
        Work {
            n_iter: self.n_iter,
            d: self.d,
            t,
            history: self.history,
            h_diag: self.h_diag,
            prev_flat_grad: self.prev_flat_grad,
            x,
            flat_grad: gradient,
            loss: loss.widen(),
            opt_cond,
            evaluations,
        }
    }
}

fn move_by_search<
    S: Single,
    O: Objective<S>,
>(
    closure: &mut O,
    config: &LbfgsConfig<S>,
    slot_shapes: &Vec<Vec<usize>>,
    limit: usize,
    work: Work<S>,
    slope: S,
    Ghost(setting): Ghost<Setting<S>>,
) -> (r: Result<Work<S>, AutodiffError>)
    requires
        old(closure).ready(),
        setting == (Setting { config: *config, shapes: shape_models(slot_shapes@), limit }),
        setting.wf(),
        work@.fits(size_of(setting.shapes)),
        work@.n_iter > 0,
        work@.evaluations <= limit,
    ensures
        exists|log: Seq<Evaluation<S>>|
            {
                &&& #[trigger] continues(*old(closure), *final(closure), log)
                &&& finishes(
                    |answers: Seq<Reply<S>>| setting.moved_by_search(work@, slope, answers),
                    log,
                    reached(r),
                )
                &&& r matches Ok(next) ==> next@.evaluations == work@.evaluations + log.len()
            },
        r matches Ok(next) ==> {
            &&& next@.fits(size_of(setting.shapes))
            &&& next@.n_iter == work@.n_iter
            &&& next@.history == work@.history
            &&& next@.evaluations <= limit
            &&& next@.evaluations == limit || next@.evaluations > work@.evaluations
        },
{
    let ghost objective = *closure;
    let ghost progress = work@;
    let ghost line = setting.line(progress, slope);
    let ghost run: Computation<S, Progress<S>> = |answers: Seq<Reply<S>>|
        setting.moved_by_search(progress, slope, answers);
    let left: usize = limit - work.evaluations;
    let max_ls: usize = if config.line_search_steps <= left {
        config.line_search_steps
    } else {
        left
    };
    let found: Result<(Point<S>, usize), AutodiffError> = strong_wolfe(
        closure,
        slot_shapes,
        work.x.as_slice(),
        work.t,
        work.d.as_slice(),
        S::round(work.loss),
        work.flat_grad.as_slice(),
        slope,
        max_ls,
    );
    let ghost first: Computation<S, PointModel<S>> = |answers: Seq<Reply<S>>|
        line.search(progress.t, max_ls as nat, answers);
    let ghost log = choose|log: Seq<Evaluation<S>>|
        {
            &&& #[trigger] continues(objective, *closure, log)
            &&& finishes(first, log, searched(found))
            &&& log.len() <= max_ls
            &&& found matches Ok((_, evaluations)) ==> evaluations == log.len()
            &&& found is Ok && max_ls > 0 ==> log.len() > 0
        };
    assert forall|rest: Seq<Reply<S>>|
        (#[trigger] run(replies(log) + rest)).queries == queries(log) && line.search(
            progress.t,
            setting.budget(progress.evaluations),
            replies(log) + rest,
        ) == (Trace { queries: queries(log), result: searched(found) }) by {
        assert(first(replies(log) + rest).queries == queries(log));
    }
    match found {
        Err(e) => {
            assert(finishes(run, log, Err(e@)));
            Err(e)
        },
        Ok((point, evaluations)) => {
            let x: Vec<S> = step_along(work.x.as_slice(), point.t, work.d.as_slice());
            match ensure_finite_slice(
                "Lbfgs::try_step_closure: x += t*d (strong Wolfe)",
                x.as_slice(),
            ) {
                Err(e) => {
                    assert(finishes(run, log, Err(e@)));
                    Err(e)
                },
                Ok(_) => {
                    let total: usize = work.evaluations + evaluations;
                    let next: Work<S> = work.at(
                        x,
                        point.t,
                        point.loss,
                        point.gradient,
                        config.tolerance_grad,
                        total,
                    );
                    assert(finishes(run, log, Ok(next@)));
                    Ok(next)
                },
            }
        },
    }
}

fn move_by_distance<
    S: Single,
    O: Objective<S>,
>(
    closure: &mut O,
    config: &LbfgsConfig<S>,
    slot_shapes: &Vec<Vec<usize>>,
    limit: usize,
    work: Work<S>,
    is_last: bool,
    Ghost(setting): Ghost<Setting<S>>,
) -> (r: Result<Work<S>, AutodiffError>)
    requires
        old(closure).ready(),
        setting == (Setting { config: *config, shapes: shape_models(slot_shapes@), limit }),
        setting.wf(),
        work@.fits(size_of(setting.shapes)),
        work@.n_iter > 0,
        work@.evaluations < usize::MAX,
    ensures
        exists|log: Seq<Evaluation<S>>|
            {
                &&& #[trigger] continues(*old(closure), *final(closure), log)
                &&& finishes(
                    |answers: Seq<Reply<S>>| setting.moved_by_distance(work@, is_last, answers),
                    log,
                    reached(r),
                )
                &&& r matches Ok(next) ==> next@.evaluations == work@.evaluations + log.len()
            },
        r matches Ok(next) ==> {
            &&& next@.fits(size_of(setting.shapes))
            &&& next@.n_iter == work@.n_iter
            &&& next@.history == work@.history
            &&& next@.evaluations == if is_last {
                work@.evaluations
            } else {
                work@.evaluations + 1
            }
        },
{
    let ghost objective = *closure;
    let ghost progress = work@;
    let ghost run: Computation<S, Progress<S>> = |answers: Seq<Reply<S>>|
        setting.moved_by_distance(progress, is_last, answers);
    let ghost none = Seq::<Evaluation<S>>::empty();
    assert(queries(none) =~= Seq::empty());
    proof {
        continues_as_it_is(objective);
    }
    let x: Vec<S> = step_along(work.x.as_slice(), work.t, work.d.as_slice());
    match ensure_finite_slice("Lbfgs::try_step_closure: x += t*d (fixed step)", x.as_slice()) {
        Err(e) => {
            assert(finishes(run, none, Err(e@)));
            return Err(e);
        },
        Ok(_) => {},
    }
    if is_last {
        let next: Work<S> = Work {
            n_iter: work.n_iter,
            d: work.d,
            t: work.t,
            history: work.history,
            h_diag: work.h_diag,
            prev_flat_grad: work.prev_flat_grad,
            x,
            flat_grad: work.flat_grad,
            loss: work.loss,
            opt_cond: work.opt_cond,
            evaluations: work.evaluations,
        };
        assert(next@ =~= (Progress { x: x@, ..progress }));
        assert(finishes(run, none, Ok(next@)));
        return Ok(next);
    }
    let params: Vec<Tensor<S>> = unflatten_tensors(x.as_slice(), slot_shapes);
    let found: Result<(S, Vec<S>), AutodiffError> = evaluate(
        closure,
        slot_shapes,
        params.as_slice(),
    );
    let ghost query = models(params@);
    let ghost reply = choose|reply: Reply<S>|
        {
            &&& #[trigger] continues(objective, *closure, once(query, reply))
            &&& evaluated(setting.shapes, reply) == found_of(found)
        };
    let ghost log = once(query, reply);
    assert(queries(log) =~= seq![query]);
    assert(continues(objective, *closure, log));
    assert forall|rest: Seq<Reply<S>>| (#[trigger] (replies(log) + rest))[0] == reply by {}
    match found {
        Err(e) => {
            assert(finishes(run, log, Err(e@)));
            Err(e)
        },
        Ok((loss, gradient)) => {
            let t: S = work.t;
            let total: usize = work.evaluations + 1;
            let next: Work<S> = work.at(x, t, loss, gradient, config.tolerance_grad, total);
            assert(finishes(run, log, Ok(next@)));
            Ok(next)
        },
    }
}

/// Iterates until the step is over.
#[verifier::loop_isolation(false)]
fn iterate<S: Single, O: Objective<S>>(
    closure: &mut O,
    config: &LbfgsConfig<S>,
    slot_shapes: &Vec<Vec<usize>>,
    limit: usize,
    begun: Work<S>,
    Ghost(setting): Ghost<Setting<S>>,
) -> (r: Result<Work<S>, AutodiffError>)
    requires
        old(closure).ready(),
        setting == (Setting { config: *config, shapes: shape_models(slot_shapes@), limit }),
        setting.wf(),
        begun@.fits(size_of(setting.shapes)),
        begun@.evaluations == 1,
        begun@.history.len() <= config.history_size,
        begun@.n_iter <= u64::MAX,
    ensures
        exists|log: Seq<Evaluation<S>>|
            {
                &&& #[trigger] continues(*old(closure), *final(closure), log)
                &&& finishes(
                    |answers: Seq<Reply<S>>| setting.iterated(begun@, 0, answers),
                    log,
                    reached(r),
                )
                &&& r matches Ok(next) ==> next@.evaluations == 1 + log.len()
            },
        r matches Ok(next) ==> {
            &&& next@.fits(size_of(setting.shapes))
            &&& next@.n_iter <= begun@.n_iter + next@.evaluations
            &&& next@.history.len() <= config.history_size
            &&& next@.evaluations <= limit + 1
        },
{
    let ghost objective = *closure;
    let ghost size = size_of(setting.shapes);
    let ghost run: Computation<S, Progress<S>> = |answers: Seq<Reply<S>>|
        setting.iterated(begun@, 0, answers);
    let ghost none = Seq::<Evaluation<S>>::empty();
    assert(queries(none) =~= Seq::empty());
    let ghost n_iter = begun@.n_iter;
    let mut work: Work<S> = begun;
    let mut done: usize = 0;
    let ghost mut log: Seq<Evaluation<S>> = none;
    proof {
        leads_to_itself(run);
        continues_as_it_is(objective);
    }
    while done < config.max_iter
        invariant
            done <= config.max_iter,
            continues(objective, *closure, log),
            work@.fits(size),
            work@.history.len() <= config.history_size,
            work@.n_iter == n_iter + done,
            work@.evaluations == 1 + log.len(),
            done < work@.evaluations <= limit,
            work@.evaluations == 1 || work@.evaluations < limit,
            leads(
                run,
                log,
                |answers: Seq<Reply<S>>| setting.iterated(work@, done as nat, answers),
            ),
        decreases config.max_iter - done,
    {
        let ghost here: Computation<S, Progress<S>> = |answers: Seq<Reply<S>>|
            setting.iterated(work@, done as nat, answers);
        assert(leads(run, log, here));
        assert(log + none =~= log);
        let is_last: bool = done + 1 == config.max_iter;
        let ghost before = work@;
        let (aimed, slope): (Work<S>, S) = match aim(config, work, Ghost(size)) {
            Err(e) => {
                proof {
                    assert(finishes(here, none, Err(e@)));
                    leads_to_end(run, log, here, none, Err(e@));
                }
                return Err(e);
            },
            Ok((aimed, slope)) => (aimed, slope),
        };
        let ghost aimed_model = aimed@;
        assert(before.aimed(*config) == Ok::<_, ErrorModel>((aimed_model, slope)));
        if config.tolerance_change.neg().lt(slope) {
            proof {
                assert(finishes(here, none, Ok(aimed@)));
                leads_to_end(run, log, here, none, Ok(aimed@));
            }
            return Ok(aimed);
        }
        let loss_before: S::Wide = aimed.loss;
        let ghost asked = *closure;
        let moved: Result<Work<S>, AutodiffError> = match config.line_search {
            LbfgsLineSearch::StrongWolfe => move_by_search(
                closure,
                config,
                slot_shapes,
                limit,
                aimed,
                slope,
                Ghost(setting),
            ),
            LbfgsLineSearch::FixedStep => move_by_distance(
                closure,
                config,
                slot_shapes,
                limit,
                aimed,
                is_last,
                Ghost(setting),
            ),
        };
        let ghost first: Computation<S, Progress<S>> = |answers: Seq<Reply<S>>|
            setting.moved(aimed_model, slope, is_last, answers);
        let ghost mut step: Seq<Evaluation<S>> = none;
        proof {
            match config.line_search {
                LbfgsLineSearch::StrongWolfe => {
                    let searching: Computation<S, Progress<S>> = |answers: Seq<Reply<S>>|
                        setting.moved_by_search(aimed_model, slope, answers);
                    step = choose|step: Seq<Evaluation<S>>|
                        {
                            &&& #[trigger] continues(asked, *closure, step)
                            &&& finishes(searching, step, reached(moved))
                            &&& moved matches Ok(next) ==> next@.evaluations
                                == aimed_model.evaluations + step.len()
                        };
                    assert forall|rest: Seq<Reply<S>>| #[trigger]
                        first(replies(step) + rest) == (Trace {
                            queries: queries(step),
                            result: reached(moved),
                        }) by {
                        assert(searching(replies(step) + rest).queries == queries(step));
                    }
                },
                LbfgsLineSearch::FixedStep => {
                    let moving: Computation<S, Progress<S>> = |answers: Seq<Reply<S>>|
                        setting.moved_by_distance(aimed_model, is_last, answers);
                    step = choose|step: Seq<Evaluation<S>>|
                        {
                            &&& #[trigger] continues(asked, *closure, step)
                            &&& finishes(moving, step, reached(moved))
                            &&& moved matches Ok(next) ==> next@.evaluations
                                == aimed_model.evaluations + step.len()
                        };
                    assert forall|rest: Seq<Reply<S>>| #[trigger]
                        first(replies(step) + rest) == (Trace {
                            queries: queries(step),
                            result: reached(moved),
                        }) by {
                        assert(moving(replies(step) + rest).queries == queries(step));
                    }
                },
            }
            continues_on(objective, log, asked, step, *closure);
        }
        match moved {
            Err(e) => {
                proof {
                    assert forall|rest: Seq<Reply<S>>| #[trigger]
                        here(replies(step) + rest) == (Trace::<S, Progress<S>> {
                            queries: queries(step),
                            result: Err(e@),
                        }) by {
                        assert(first(replies(step) + rest).queries == queries(step));
                    }
                    leads_to_end(run, log, here, step, Err(e@));
                }
                return Err(e);
            },
            Ok(next) => {
                let change: S = abs_max(multiply(&next.d, next.t).as_slice());
                let loss_change: S::Wide = next.loss.sub(loss_before).abs();
                if is_last || next.evaluations >= limit || next.opt_cond || change.le(
                    config.tolerance_change,
                ) || loss_change.lt(config.tolerance_change.widen()) {
                    proof {
                        assert(setting.is_over(aimed_model.loss, next@, is_last));
                        assert forall|rest: Seq<Reply<S>>| #[trigger]
                            here(replies(step) + rest) == (Trace {
                                queries: queries(step),
                                result: Ok(next@),
                            }) by {
                            assert(first(replies(step) + rest).queries == queries(step));
                            assert(queries(step) + Seq::empty() =~= queries(step));
                        }
                        leads_to_end(run, log, here, step, Ok(next@));
                    }
                    return Ok(next);
                }
                assert(!setting.is_over(aimed_model.loss, next@, is_last));
                work = next;
                done = done + 1;
                proof {
                    let there: Computation<S, Progress<S>> = |answers: Seq<Reply<S>>|
                        setting.iterated(work@, done as nat, answers);
                    assert forall|rest: Seq<Reply<S>>| #[trigger]
                        here(replies(step) + rest) == prepend(queries(step), there(rest)) by {
                        assert(first(replies(step) + rest).queries == queries(step));
                        assert((replies(step) + rest).skip(queries(step).len() as int) =~= rest);
                    }
                    leads_on(run, log, here, step, there);
                    log = log + step;
                }
            },
        }
    }
    proof {
        let here: Computation<S, Progress<S>> = |answers: Seq<Reply<S>>|
            setting.iterated(work@, done as nat, answers);
        assert(finishes(here, none, Ok(work@)));
        leads_to_end(run, log, here, none, Ok(work@));
        assert(log + none =~= log);
    }
    Ok(work)
}

fn copied_shapes(shapes: &Vec<Vec<usize>>) -> (r: Vec<Vec<usize>>)
    ensures
        shape_models(r@) == shape_models(shapes@),
{
    let mut out: Vec<Vec<usize>> = Vec::new();
    let mut i: usize = 0;
    while i < shapes.len()
        invariant
            i <= shapes@.len(),
            out@.len() == i,
            forall|k: int| 0 <= k < i ==> (#[trigger] out@[k])@ == shapes@[k]@,
        decreases shapes@.len() - i,
    {
        out.push(copied(shapes[i].as_slice()));
        i = i + 1;
    }
    assert(shape_models(out@) =~= shape_models(shapes@));
    out
}

fn shapes_of_params<S>(params: &[Tensor<S>]) -> (r: Vec<Vec<usize>>)
    ensures
        shape_models(r@) == shapes_of(models(params@)),
        all_countable(shape_models(r@)),
{
    let mut out: Vec<Vec<usize>> = Vec::new();
    let mut i: usize = 0;
    while i < params.len()
        invariant
            i <= params@.len(),
            out@.len() == i,
            forall|k: int|
                0 <= k < i ==> (#[trigger] out@[k])@ == params@[k]@.shape && countable(out@[k]@),
        decreases params@.len() - i,
    {
        let data: &[S] = params[i].as_slice();
        out.push(copied(params[i].shape()));
        i = i + 1;
    }
    assert(shape_models(out@) =~= shapes_of(models(params@)));
    out
}

fn copied_updates<S: Copy>(history: &Vec<Update<S>>) -> (r: Vec<Update<S>>)
    ensures
        update_models(r@) == update_models(history@),
{
    let mut out: Vec<Update<S>> = Vec::new();
    let mut i: usize = 0;
    while i < history.len()
        invariant
            i <= history@.len(),
            out@.len() == i,
            forall|k: int| 0 <= k < i ==> (#[trigger] out@[k])@ == history@[k]@,
        decreases history@.len() - i,
    {
        let update: &Update<S> = &history[i];
        out.push(
            Update {
                change: copied(update.change.as_slice()),
                movement: copied(update.movement.as_slice()),
                inverse: update.inverse,
            },
        );
        i = i + 1;
    }
    assert(update_models(out@) =~= update_models(history@));
    out
}

fn copied_tensors<S: Copy>(params: &[Tensor<S>]) -> (r: Vec<Tensor<S>>)
    ensures
        models(r@) == models(params@),
{
    let mut out: Vec<Tensor<S>> = Vec::new();
    let mut i: usize = 0;
    while i < params.len()
        invariant
            i <= params@.len(),
            out@.len() == i,
            forall|k: int| 0 <= k < i ==> (#[trigger] out@[k])@ == params@[k]@,
        decreases params@.len() - i,
    {
        out.push(params[i].duplicate());
        i = i + 1;
    }
    assert(models(out@) =~= models(params@));
    out
}

fn check_shapes<S>(slot_shapes: &Vec<Vec<usize>>, params: &[Tensor<S>]) -> (r: Result<
    (),
    AutodiffError,
>)
    requires
        slot_shapes@.len() == params@.len(),
    ensures
        match r {
            Ok(_) => {
                &&& shape_error(shape_models(slot_shapes@), models(params@), 0) is None
                &&& shapes_of(models(params@)) == shape_models(slot_shapes@)
            },
            Err(e) => shape_error(shape_models(slot_shapes@), models(params@), 0) == Some(e@),
        },
{
    let ghost shapes = shape_models(slot_shapes@);
    let ghost all = models(params@);
    let mut i: usize = 0;
    while i < params.len()
        invariant
            shapes == shape_models(slot_shapes@),
            all == models(params@),
            i <= params@.len(),
            slot_shapes@.len() == params@.len(),
            shape_error(shapes, all, 0) == shape_error(shapes, all, i as int),
            forall|k: int| 0 <= k < i ==> (#[trigger] all[k]).shape == shapes[k],
        decreases params@.len() - i,
    {
        assert(all[i as int] == params@[i as int]@);
        assert(shapes[i as int] == slot_shapes@[i as int]@);
        if !same_shape(params[i].shape(), slot_shapes[i].as_slice()) {
            return Err(shape_mismatch(params[i].shape(), slot_shapes[i].as_slice()));
        }
        i = i + 1;
    }
    assert(shapes_of(all) =~= shapes);
    Ok(())
}

/// Whether a returned value and the optimizer afterwards are the outcome of a step.
pub open spec fn step_outcome<S: Single>(
    r: Result<Vec<Tensor<S>>, AutodiffError>,
    after: LbfgsModel<S>,
) -> Result<(Seq<TensorModel<S>>, LbfgsModel<S>), ErrorModel> {
    match r {
        Ok(params) => Ok((models(params@), after)),
        Err(e) => Err(e@),
    }
}

impl<S: Single> Lbfgs<S> {
    fn carry_out<O: Objective<S>>(
        &mut self,
        params: &[Tensor<S>],
        objective: &mut O,
    ) -> (r: Result<Vec<Tensor<S>>, AutodiffError>)
        requires
            old(objective).ready(),
        ensures
            exists|log: Seq<Evaluation<S>>|
                {
                    &&& #[trigger] continues(*old(objective), *final(objective), log)
                    &&& finishes(
                        |answers: Seq<Reply<S>>| old(self)@.stepped(models(params@), answers),
                        log,
                        step_outcome(r, final(self)@),
                    )
                    &&& r is Ok ==> final(self)@.func_evals == old(self)@.func_evals + log.len()
                },
            r is Err ==> final(self)@ == old(self)@,
            final(self)@.wf(),
    {
        proof {
            use_type_invariant(&*self);
        }
        let ghost before = self@;
        let ghost given = models(params@);
        let ghost run: Computation<S, (Seq<TensorModel<S>>, LbfgsModel<S>)> =
            |answers: Seq<Reply<S>>| before.stepped(given, answers);
        let ghost none = Seq::<Evaluation<S>>::empty();
        assert(queries(none) =~= Seq::empty());
        let ghost asked = *objective;
        proof {
            continues_as_it_is(asked);
        }
        if params.len() == 0 {
            assert(finishes(run, none, Err(refused("Lbfgs::try_step_closure: params must not be empty"))));
            return Err(invalid("Lbfgs::try_step_closure: params must not be empty"));
        }
        let slot_shapes: Vec<Vec<usize>> = if self.slot_shapes.len() == 0 {
            shapes_of_params(params)
        } else {
            copied_shapes(&self.slot_shapes)
        };
        let ghost shapes = shape_models(slot_shapes@);
        assert(shapes == before.expected_shapes(given));
        if params.len() != slot_shapes.len() {
            assert(finishes(
                run,
                none,
                Err(lbfgs_slot_count_changed(slot_shapes@.len(), params@.len())),
            ));
            return Err(refuse_lbfgs_slot_count(slot_shapes.len(), params.len()));
        }
        match check_shapes(&slot_shapes, params) {
            Err(e) => {
                assert(finishes(run, none, Err(e@)));
                return Err(e);
            },
            Ok(_) => {},
        }
        let x: Vec<S> = flatten_tensors(params);
        match ensure_finite_slice("Lbfgs::try_step_closure: params", x.as_slice()) {
            Err(e) => {
                assert(finishes(run, none, Err(e@)));
                return Err(e);
            },
            Ok(_) => {},
        }
        let found: Result<(S, Vec<S>), AutodiffError> = evaluate(objective, &slot_shapes, params);
        let ghost reply = choose|reply: Reply<S>|
            {
                &&& #[trigger] continues(asked, *objective, once(given, reply))
                &&& evaluated(shapes, reply) == found_of(found)
            };
        let ghost first = once(given, reply);
        assert(queries(first) =~= seq![given]);
        let ghost asked_once = *objective;
        assert(continues(asked, asked_once, first));
        assert forall|rest: Seq<Reply<S>>| (#[trigger] (replies(first) + rest))[0] == reply by {}
        let (loss, gradient): (S, Vec<S>) = match found {
            Err(e) => {
                assert(finishes(run, first, Err(e@)));
                return Err(e);
            },
            Ok((loss, gradient)) => (loss, gradient),
        };
        let ghost gradient_model = gradient@;
        let ghost next: Computation<S, (Seq<TensorModel<S>>, LbfgsModel<S>)> =
            |answers: Seq<Reply<S>>| before.resumed(given, loss, gradient_model, answers);
        assert(leads(run, first, next)) by {
            assert forall|rest: Seq<Reply<S>>| #[trigger]
                run(replies(first) + rest) == prepend(queries(first), next(rest)) by {
                assert((replies(first) + rest).skip(1) =~= rest);
            }
        }
        if abs_max(gradient.as_slice()).le(self.config.tolerance_grad) {
            let func_evals: u64 = match self.func_evals.checked_add(1) {
                Some(sum) => sum,
                None => {
                    proof {
                        let error = refused("Lbfgs: too many evaluations to count");
                        assert(finishes(next, none, Err(error)));
                        leads_to_end(run, first, next, none, Err(error));
                        assert(first + none =~= first);
                    }
                    return Err(invalid("Lbfgs: too many evaluations to count"));
                },
            };
            let out: Vec<Tensor<S>> = copied_tensors(params);
            let ghost after = LbfgsModel {
                shapes,
                func_evals: before.func_evals + 1,
                last_loss: Some(loss),
                ..before
            };
            self.slot_shapes = slot_shapes;
            self.func_evals = func_evals;
            self.last_loss = Some(loss);
            proof {
                assert(self@ =~= after);
                assert(finishes(next, none, Ok((given, after))));
                leads_to_end(run, first, next, none, Ok((given, after)));
                assert(first + none =~= first);
            }
            return Ok(out);
        }
        let begun: Work<S> = Work {
            n_iter: self.n_iter as u128,
            d: copied(self.d.as_slice()),
            t: self.t,
            history: copied_updates(&self.history),
            h_diag: self.h_diag,
            prev_flat_grad: match &self.prev_flat_grad {
                Some(gradient) => Some(copied(gradient.as_slice())),
                None => None,
            },
            x,
            flat_grad: gradient,
            loss: loss.widen(),
            opt_cond: false,
            evaluations: 1,
        };
        assert(begun@ =~= before.begun(given, loss, gradient_model));
        let ghost setting = before.setting(given);
        let ghost start = begun@;
        let reached_work: Result<Work<S>, AutodiffError> = iterate(
            objective,
            &self.config,
            &slot_shapes,
            self.resolved_max_eval,
            begun,
            Ghost(setting),
        );
        let ghost iterating: Computation<S, Progress<S>> = |answers: Seq<Reply<S>>|
            setting.iterated(start, 0, answers);
        let ghost more = choose|log: Seq<Evaluation<S>>|
            {
                &&& #[trigger] continues(asked_once, *objective, log)
                &&& finishes(iterating, log, reached(reached_work))
                &&& reached_work matches Ok(next) ==> next@.evaluations == 1 + log.len()
            };
        proof {
            continues_on(asked, first, asked_once, more, *objective);
        }
        match reached_work {
            Err(e) => {
                proof {
                    assert forall|rest: Seq<Reply<S>>| #[trigger]
                        next(replies(more) + rest) == (Trace::<
                            S,
                            (Seq<TensorModel<S>>, LbfgsModel<S>),
                        > {
                            queries: queries(more),
                            result: Err(e@),
                        }) by {
                        assert(iterating(replies(more) + rest).queries == queries(more));
                    }
                    leads_to_end(run, first, next, more, Err(e@));
                }
                Err(e)
            },
            Ok(work) => {
                let ghost progress = work@;
                let func_evals: u64 = match self.func_evals.checked_add(work.evaluations as u64) {
                    Some(sum) => sum,
                    None => {
                        proof {
                            let error = refused("Lbfgs: too many evaluations to count");
                            assert forall|rest: Seq<Reply<S>>| #[trigger]
                                next(replies(more) + rest) == (Trace::<
                                    S,
                                    (Seq<TensorModel<S>>, LbfgsModel<S>),
                                > {
                                    queries: queries(more),
                                    result: Err(error),
                                }) by {
                                assert(iterating(replies(more) + rest).queries == queries(more));
                            }
                            leads_to_end(run, first, next, more, Err(error));
                        }
                        return Err(invalid("Lbfgs: too many evaluations to count"));
                    },
                };
                let out: Vec<Tensor<S>> = unflatten_tensors(work.x.as_slice(), &slot_shapes);
                *self = Lbfgs {
                    config: self.config,
                    resolved_max_eval: self.resolved_max_eval,
                    slot_shapes,
                    n_iter: work.n_iter as u64,
                    func_evals,
                    d: work.d,
                    t: work.t,
                    history: work.history,
                    h_diag: work.h_diag,
                    prev_flat_grad: work.prev_flat_grad,
                    last_loss: Some(loss),
                };
                proof {
                    assert(self@ =~= before.ended(given, loss, progress));
                    let outcome = Ok((models(out@), self@));
                    assert forall|rest: Seq<Reply<S>>| #[trigger]
                        next(replies(more) + rest) == (Trace {
                            queries: queries(more),
                            result: outcome,
                        }) by {
                        assert(iterating(replies(more) + rest).queries == queries(more));
                    }
                    leads_to_end(run, first, next, more, outcome);
                }
                Ok(out)
            },
        }
    }

    /// One step with any kind of objective, which is evaluated several times. Returns
    /// the parameters that the step reaches.
    ///
    /// A step that fails leaves the optimizer as it was.
    pub fn step_with<O: Objective<S>>(
        &mut self,
        params: &[Tensor<S>],
        objective: &mut O,
    ) -> (r: Result<Vec<Tensor<S>>, AutodiffError>)
        requires
            old(objective).ready(),
        ensures
            exists|log: Seq<Evaluation<S>>|
                {
                    &&& #[trigger] continues(*old(objective), *final(objective), log)
                    &&& finishes(
                        |answers: Seq<Reply<S>>| old(self)@.stepped(models(params@), answers),
                        log,
                        step_outcome(r, final(self)@),
                    )
                    &&& r is Ok ==> final(self)@.func_evals == old(self)@.func_evals + log.len()
                    &&& log.len() <= old(self)@.most_evaluations()
                },
            r is Err ==> final(self)@ == old(self)@,
            final(self)@.wf(),
    {
        proof {
            use_type_invariant(&*self);
        }
        let ghost asked = *objective;
        let r: Result<Vec<Tensor<S>>, AutodiffError> = self.carry_out(params, objective);
        proof {
            let log = choose|log: Seq<Evaluation<S>>|
                {
                    &&& #[trigger] continues(asked, *objective, log)
                    &&& finishes(
                        |answers: Seq<Reply<S>>| old(self)@.stepped(models(params@), answers),
                        log,
                        step_outcome(r, self@),
                    )
                    &&& r is Ok ==> self@.func_evals == old(self)@.func_evals + log.len()
                };
            log_stays_within_the_limit(old(self)@, models(params@), log, step_outcome(r, self@));
        }
        r
    }

    /// One step. The closure takes parameters and returns the loss and the
    /// gradients there; it is called several times. Returns the parameters that the
    /// step reaches.
    ///
    /// A step that fails leaves the optimizer as it was.
    pub fn try_step_closure<
        F: FnMut(&[Tensor<S>]) -> Result<(S, Vec<Tensor<S>>), AutodiffError>,
    >(&mut self, params: &[Tensor<S>], closure: F) -> (r: Result<Vec<Tensor<S>>, AutodiffError>)
        requires
            forall|p: &[Tensor<S>]| call_requires(closure, (p,)),
        ensures
            exists|after: Fallible<S, F>, log: Seq<Evaluation<S>>|
                {
                    &&& #[trigger] continues(Fallible::fresh(closure), after, log)
                    &&& finishes(
                        |answers: Seq<Reply<S>>| old(self)@.stepped(models(params@), answers),
                        log,
                        step_outcome(r, final(self)@),
                    )
                    &&& r is Ok ==> final(self)@.func_evals == old(self)@.func_evals + log.len()
                    &&& log.len() <= old(self)@.most_evaluations()
                },
            r is Err ==> final(self)@ == old(self)@,
            final(self)@.wf(),
    {
        let mut objective: Fallible<S, F> = Fallible::new(closure);
        self.step_with(params, &mut objective)
    }

    /// One step with a closure that cannot fail.
    pub fn step_closure<F: FnMut(&[Tensor<S>]) -> (S, Vec<Tensor<S>>)>(
        &mut self,
        params: &[Tensor<S>],
        closure: F,
    ) -> (r: Result<Vec<Tensor<S>>, AutodiffError>)
        requires
            forall|p: &[Tensor<S>]| call_requires(closure, (p,)),
        ensures
            exists|after: Infallible<S, F>, log: Seq<Evaluation<S>>|
                {
                    &&& #[trigger] continues(Infallible::fresh(closure), after, log)
                    &&& finishes(
                        |answers: Seq<Reply<S>>| old(self)@.stepped(models(params@), answers),
                        log,
                        step_outcome(r, final(self)@),
                    )
                    &&& r is Ok ==> final(self)@.func_evals == old(self)@.func_evals + log.len()
                    &&& log.len() <= old(self)@.most_evaluations()
                },
            r is Err ==> final(self)@ == old(self)@,
            final(self)@.wf(),
    {
        let mut objective: Infallible<S, F> = Infallible::new(closure);
        self.step_with(params, &mut objective)
    }
}

/// Parameters that are refused are refused before the objective is evaluated.
pub proof fn refused_parameters_are_not_evaluated<S: Single>(
    optimizer: LbfgsModel<S>,
    params: Seq<TensorModel<S>>,
    answers: Seq<Reply<S>>,
)
    requires
        optimizer.params_error(params) is Some,
    ensures
        optimizer.stepped(params, answers).queries.len() == 0,
        optimizer.stepped(params, answers).result is Err,
{
}

/// A step that starts with a gradient that is small enough evaluates the objective
/// once and leaves the parameters and the number of iterations as they are.
pub proof fn small_gradient_ends_a_step<S: Single>(
    optimizer: LbfgsModel<S>,
    params: Seq<TensorModel<S>>,
    loss: S,
    gradient: Seq<S>,
    answers: Seq<Reply<S>>,
)
    requires
        optimizer.params_error(params) is None,
        optimizer.func_evals < u64::MAX,
        evaluated(optimizer.expected_shapes(params), answers[0]) == Ok::<_, ErrorModel>(
            (loss, gradient),
        ),
        peak(gradient).at_most(optimizer.config.tolerance_grad),
    ensures
        optimizer.stepped(params, answers).queries == seq![params],
        optimizer.stepped(params, answers).result matches Ok((after, next)) && {
            &&& after == params
            &&& next.n_iter == optimizer.n_iter
            &&& next.func_evals == optimizer.func_evals + 1
            &&& next.last_loss == Some(loss)
        },
{
    assert(seq![params] + Seq::empty() =~= seq![params]);
}

/// Without earlier updates the search direction is the scaled negative gradient.
pub proof fn direction_without_history<S: Single>(scale: S, gradient: Seq<S>)
    requires
        is_finite_vector(multiple(opposite(gradient), scale)),
    ensures
        quasi_newton(Seq::empty(), scale, gradient) == Ok::<_, ErrorModel>(
            multiple(opposite(gradient), scale),
        ),
{
}

proof fn iterations_stay_within_the_limit<S: Single>(
    setting: Setting<S>,
    progress: Progress<S>,
    done: nat,
    answers: Seq<Reply<S>>,
)
    requires
        progress.evaluations <= setting.limit,
        progress.evaluations == 1 || progress.evaluations < setting.limit,
    ensures
        ({
            let made = setting.iterated(progress, done, answers).queries.len();
            match setting.config.line_search {
                LbfgsLineSearch::StrongWolfe => made + progress.evaluations <= setting.limit,
                LbfgsLineSearch::FixedStep => {
                    &&& done < setting.config.max_iter ==> made + done < setting.config.max_iter
                    &&& done >= setting.config.max_iter ==> made == 0
                    &&& made + progress.evaluations <= setting.limit || (made <= 1
                        && progress.evaluations == 1)
                },
            }
        }),
    decreases setting.config.max_iter - done,
{
    if done < setting.config.max_iter {
        let is_last = done + 1 == setting.config.max_iter;
        if let Ok((aimed, slope)) = progress.aimed(setting.config) {
            let moved = setting.moved(aimed, slope, is_last, answers);
            line_search_stays_within_its_budget(
                setting.line(aimed, slope),
                aimed.t,
                setting.budget(aimed.evaluations),
                answers,
            );
            if let Ok(next) = moved.result {
                if !setting.is_over(aimed.loss, next, is_last) {
                    iterations_stay_within_the_limit(
                        setting,
                        next,
                        done + 1,
                        answers.skip(moved.queries.len() as int),
                    );
                }
            }
        }
    }
}

/// A step evaluates the objective at most as often as its limit allows, and one of
/// fixed distances at most once for each iteration. Only a step of fixed distances
/// with a limit of one evaluates it a second time.
pub proof fn step_stays_within_its_limit<S: Single>(
    optimizer: LbfgsModel<S>,
    params: Seq<TensorModel<S>>,
    answers: Seq<Reply<S>>,
)
    requires
        optimizer.wf(),
    ensures
        optimizer.stepped(params, answers).queries.len() <= optimizer.most_evaluations(),
{
    if optimizer.params_error(params) is None {
        if let Ok((loss, gradient)) = evaluated(optimizer.expected_shapes(params), answers[0]) {
            iterations_stay_within_the_limit(
                optimizer.setting(params),
                optimizer.begun(params, loss, gradient),
                0,
                answers.skip(1),
            );
        }
    }
}

proof fn log_stays_within_the_limit<S: Single>(
    optimizer: LbfgsModel<S>,
    params: Seq<TensorModel<S>>,
    log: Seq<Evaluation<S>>,
    result: Result<(Seq<TensorModel<S>>, LbfgsModel<S>), ErrorModel>,
)
    requires
        optimizer.wf(),
        finishes(|answers: Seq<Reply<S>>| optimizer.stepped(params, answers), log, result),
    ensures
        log.len() <= optimizer.most_evaluations(),
{
    let run: Computation<S, (Seq<TensorModel<S>>, LbfgsModel<S>)> = |answers: Seq<Reply<S>>|
        optimizer.stepped(params, answers);
    let rest = Seq::<Reply<S>>::empty();
    assert(run(replies(log) + rest).queries == queries(log));
    step_stays_within_its_limit(optimizer, params, replies(log) + rest);
}

/// Whether a function answers alike at parameters whose elements compare equal: it
/// does not tell the two signs of zero apart.
pub open spec fn regards_values<S: Single>(landscape: Landscape<S>) -> bool {
    forall|a: Seq<TensorModel<S>>, b: Seq<TensorModel<S>>| #[trigger]
        alike(a, b) ==> landscape(a) == landscape(b)
}

/// Whether a function has the given loss, with gradients that can be used, at
/// parameters of the given shapes.
pub open spec fn has_loss<S: Single>(
    landscape: Landscape<S>,
    shapes: Seq<Seq<usize>>,
    params: Seq<TensorModel<S>>,
    loss: S,
) -> bool {
    evaluated(shapes, landscape(params)) matches Ok((found, _)) && found == loss
}

proof fn gradients_are_finite<S: Single>(
    shapes: Seq<Seq<usize>>,
    grads: Seq<TensorModel<S>>,
    i: int,
)
    requires
        0 <= i,
        gradients_error(shapes, grads, i) is None,
    ensures
        forall|k: int| i <= k < grads.len() ==> is_finite_vector((#[trigger] grads[k]).data),
    decreases grads.len() - i,
{
    if i < grads.len() {
        gradients_are_finite(shapes, grads, i + 1);
    }
}

/// What can be used of an answer is finite.
proof fn evaluated_is_finite<S: Single>(shapes: Seq<Seq<usize>>, reply: Reply<S>)
    ensures
        evaluated(shapes, reply) matches Ok((loss, gradient)) ==> loss.finite() && is_finite_vector(
            gradient,
        ),
{
    if let Ok((loss, grads)) = reply {
        if output_error(shapes, loss, grads) is None {
            gradients_are_finite(shapes, grads, 0);
            flat_of_finite_tensors_is_finite(grads);
        }
    }
}

/// The first distance of an iteration is not negative.
proof fn first_distance_is_not_negative<S: Single>(progress: Progress<S>, config: LbfgsConfig<S>)
    requires
        lbfgs_config_error(config) is None,
        progress.n_iter == 0 ==> {
            &&& is_finite_vector(progress.gradient)
            &&& !peak(progress.gradient).at_most(config.tolerance_grad)
        },
    ensures
        progress.aimed(config) matches Ok((aimed, _)) ==> zero::<S>().at_most(aimed.t),
{
    if progress.n_iter == 0 && progress.aimed(config) is Ok {
        let unit = one::<S>();
        let sum = S::rounded(wide_abs_sum(progress.gradient, progress.gradient.len() as int));
        sum_of_large_magnitudes_is_positive(progress.gradient, config.tolerance_grad);
        unit.unit_interval(unit);
        let quotient = unit.over(sum);
        unit.signs(sum);
        zero::<S>().order(quotient, unit);
        unit.order(quotient, quotient);
        zero::<S>().order(unit, unit);
        unit.extremes(quotient);
        let share = unit.smaller(quotient);
        assert(share.finite() && zero::<S>().at_most(share));
        share.signs(config.lr);
    }
}

/// Parameters that are moved by no distance are alike.
proof fn no_distance_leaves_parameters_alike<S: Single>(
    x: Seq<S>,
    direction: Seq<S>,
    shapes: Seq<Seq<usize>>,
)
    requires
        x.len() == size_of(shapes),
        is_finite_vector(stepped_along(x, zero(), direction)),
    ensures
        alike(unflat(stepped_along(x, zero(), direction), shapes), unflat(x, shapes)),
{
    let moved = stepped_along(x, zero(), direction);
    assert forall|k: int| 0 <= k < moved.len() implies (#[trigger] moved[k]).same(x[k]) by {
        assert(moved[k].finite());
        zero::<S>().fused_operands(direction[k], x[k]);
        x[k].neutral(direction[k]);
    }
    alike_vectors_make_alike_tensors(moved, x, shapes);
}

proof fn iterations_never_raise_the_loss<S: Single>(
    landscape: Landscape<S>,
    setting: Setting<S>,
    progress: Progress<S>,
    done: nat,
    answers: Seq<Reply<S>>,
    loss: S,
)
    requires
        lbfgs_config_error(setting.config) is None,
        setting.config.line_search == LbfgsLineSearch::StrongWolfe,
        regards_values(landscape),
        progress.x.len() == size_of(setting.shapes),
        has_loss(landscape, setting.shapes, unflat(progress.x, setting.shapes), loss),
        progress.loss == loss.widened(),
        progress.n_iter == 0 ==> {
            &&& is_finite_vector(progress.gradient)
            &&& !setting.is_optimal(progress.gradient)
        },
        answered_by(landscape, setting.iterated(progress, done, answers).queries, answers),
    ensures
        setting.iterated(progress, done, answers).result matches Ok(end) ==> exists|lower: S|
            {
                &&& #[trigger] has_loss(
                    landscape,
                    setting.shapes,
                    unflat(end.x, setting.shapes),
                    lower,
                )
                &&& lower.at_most(loss)
            },
    decreases setting.config.max_iter - done,
{
    let whole = setting.iterated(progress, done, answers);
    let here = unflat(progress.x, setting.shapes);
    evaluated_is_finite(setting.shapes, landscape(here));
    loss.order(loss, loss);
    if done < setting.config.max_iter {
        let is_last = done + 1 == setting.config.max_iter;
        if let Ok((aimed, slope)) = progress.aimed(setting.config) {
            let steepness = setting.config.tolerance_change.negated();
            if !steepness.less(slope) {
                let line = setting.line(aimed, slope);
                let budget = setting.budget(aimed.evaluations);
                let moved = setting.moved(aimed, slope, is_last, answers);
                let found = line.search(aimed.t, budget, answers);
                assert(moved == setting.moved_by_search(aimed, slope, answers));
                loss.precisions(loss.widened());
                assert(line.loss == loss);
                setting.config.tolerance_change.signs(zero());
                slope.order(slope, slope);
                steepness.order(zero(), zero());
                steepness.order(slope, slope);
                slope.order(steepness, zero());
                first_distance_is_not_negative(progress, setting.config);
                if progress.x.len() > 0 {
                    assert(leads_down(line));
                    line_search_never_raises_the_loss(line, aimed.t, budget, answers);
                }
                if let Ok(next) = moved.result {
                    let rest = answers.skip(moved.queries.len() as int);
                    let tail = if setting.is_over(aimed.loss, next, is_last) {
                        Trace { queries: Seq::empty(), result: Ok(next) }
                    } else {
                        setting.iterated(next, done + 1, rest)
                    };
                    assert(whole == prepend(moved.queries, tail));
                    answered_in_parts(landscape, moved.queries, tail.queries, answers);
                    line_search_stays_on_the_landscape(landscape, line, aimed.t, budget, answers);
                    let point = found.result->Ok_0;
                    let there = unflat(next.x, setting.shapes);
                    if point == line.start() {
                        no_distance_leaves_parameters_alike(
                            progress.x,
                            aimed.direction,
                            setting.shapes,
                        );
                        assert(alike(there, here));
                    }
                    assert(has_loss(landscape, setting.shapes, there, point.loss));
                    if progress.x.len() == 0 {
                        assert(next.x =~= progress.x);
                    }
                    if !setting.is_over(aimed.loss, next, is_last) {
                        iterations_never_raise_the_loss(
                            landscape,
                            setting,
                            next,
                            done + 1,
                            rest,
                            point.loss,
                        );
                        if let Ok(end) = tail.result {
                            let lower = choose|lower: S|
                                {
                                    &&& #[trigger] has_loss(
                                        landscape,
                                        setting.shapes,
                                        unflat(end.x, setting.shapes),
                                        lower,
                                    )
                                    &&& lower.at_most(point.loss)
                                };
                            lower.order(point.loss, loss);
                        }
                    }
                }
            }
        }
    }
}

proof fn accepted_parameters_have_the_expected_shapes<S>(
    shapes: Seq<Seq<usize>>,
    params: Seq<TensorModel<S>>,
    i: int,
)
    requires
        0 <= i,
        shape_error(shapes, params, i) is None,
    ensures
        forall|k: int| i <= k < params.len() ==> (#[trigger] params[k]).shape == shapes[k],
    decreases params.len() - i,
{
    if i < params.len() {
        accepted_parameters_have_the_expected_shapes(shapes, params, i + 1);
    }
}

/// A step with a line search never makes the loss worse: where the objective
/// answers by the values of the parameters alone, its loss at the parameters that
/// the step reaches is at most the one at which the step started.
pub proof fn searching_step_never_raises_the_loss<S: Single>(
    landscape: Landscape<S>,
    optimizer: LbfgsModel<S>,
    params: Seq<TensorModel<S>>,
    answers: Seq<Reply<S>>,
)
    requires
        optimizer.wf(),
        optimizer.config.line_search == LbfgsLineSearch::StrongWolfe,
        forall|i: int| 0 <= i < params.len() ==> (#[trigger] params[i]).wf(),
        regards_values(landscape),
        answered_by(landscape, optimizer.stepped(params, answers).queries, answers),
    ensures
        optimizer.stepped(params, answers).result matches Ok((reached, next)) ==> exists|lower: S|
            {
                &&& #[trigger] has_loss(
                    landscape,
                    optimizer.expected_shapes(params),
                    reached,
                    lower,
                )
                &&& next.last_loss matches Some(loss) && lower.at_most(loss)
            },
{
    let whole = optimizer.stepped(params, answers);
    if whole.result is Ok {
        let shapes = optimizer.expected_shapes(params);
        let rest = answers.skip(1);
        let (loss, gradient) = evaluated(shapes, answers[0])->Ok_0;
        let tail = optimizer.resumed(params, loss, gradient, rest);
        assert(whole == prepend(seq![params], tail));
        answered_in_parts(landscape, seq![params], tail.queries, answers);
        assert(answers[0] == landscape(seq![params][0]));
        evaluated_is_finite(shapes, answers[0]);
        loss.order(loss, loss);
        accepted_parameters_have_the_expected_shapes(shapes, params, 0);
        assert(shapes_of(params) =~= shapes);
        unflat_inverts_flat(params);
        flat_has_all_elements(params);
        assert(has_loss(landscape, shapes, params, loss));
        let setting = optimizer.setting(params);
        if !setting.is_optimal(gradient) {
            iterations_never_raise_the_loss(
                landscape,
                setting,
                optimizer.begun(params, loss, gradient),
                0,
                rest,
                loss,
            );
            let end = setting.iterated(
                optimizer.begun(params, loss, gradient),
                0,
                rest,
            ).result->Ok_0;
            let lower = choose|lower: S|
                {
                    &&& #[trigger] has_loss(
                        landscape,
                        setting.shapes,
                        unflat(end.x, setting.shapes),
                        lower,
                    )
                    &&& lower.at_most(loss)
                };
            assert(has_loss(landscape, shapes, whole.result->Ok_0.0, lower));
            assert(whole.result->Ok_0.1.last_loss == Some(loss));
        } else {
            assert(has_loss(landscape, shapes, whole.result->Ok_0.0, loss));
            assert(whole.result->Ok_0.1.last_loss == Some(loss));
        }
    }
}

/// What is said of a step by the answers that it gets, said by its log of
/// evaluations.
pub proof fn logged_step_never_raises_the_loss<S: Single>(
    landscape: Landscape<S>,
    optimizer: LbfgsModel<S>,
    params: Seq<TensorModel<S>>,
    log: Seq<Evaluation<S>>,
    reached: Seq<TensorModel<S>>,
    next: LbfgsModel<S>,
)
    requires
        optimizer.wf(),
        optimizer.config.line_search == LbfgsLineSearch::StrongWolfe,
        forall|i: int| 0 <= i < params.len() ==> (#[trigger] params[i]).wf(),
        regards_values(landscape),
        finishes(
            |answers: Seq<Reply<S>>| optimizer.stepped(params, answers),
            log,
            Ok((reached, next)),
        ),
        forall|i: int| 0 <= i < log.len() ==> (#[trigger] log[i]).reply == landscape(log[i].query),
    ensures
        exists|lower: S|
            {
                &&& #[trigger] has_loss(
                    landscape,
                    optimizer.expected_shapes(params),
                    reached,
                    lower,
                )
                &&& next.last_loss matches Some(loss) && lower.at_most(loss)
            },
{
    let run: Computation<S, (Seq<TensorModel<S>>, LbfgsModel<S>)> = |answers: Seq<Reply<S>>|
        optimizer.stepped(params, answers);
    let answers = replies(log) + Seq::<Reply<S>>::empty();
    assert(run(answers).queries == queries(log));
    assert forall|i: int| 0 <= i < log.len() implies #[trigger] answers[i] == landscape(
        queries(log)[i],
    ) by {
        assert(log[i].reply == landscape(log[i].query));
    }
    searching_step_never_raises_the_loss(landscape, optimizer, params, answers);
}

/// From the second iteration on, the first distance along the direction is the learning
/// rate, so that a fixed step takes each element to the learning rate times its
/// direction from where it was. The iteration remembers the gradient that it starts
/// from and goes on from the same point.
pub proof fn later_distances_are_the_learning_rate<S: Single>(
    setting: Setting<S>,
    progress: Progress<S>,
    is_last: bool,
    answers: Seq<Reply<S>>,
    k: int,
)
    requires
        progress.n_iter > 0,
        progress.aimed(setting.config) is Ok,
        0 <= k < progress.x.len(),
    ensures
        progress.aimed(setting.config) matches Ok((aimed, _)) && {
            &&& aimed.t == setting.config.lr
            &&& aimed.n_iter == progress.n_iter + 1
            &&& aimed.previous == Some(progress.gradient)
            &&& aimed.x == progress.x
            &&& aimed.loss == progress.loss
            &&& setting.moved_by_distance(aimed, is_last, answers).result matches Ok(moved) ==> {
                &&& moved.x.len() == progress.x.len()
                &&& moved.x[k] == setting.config.lr.fused(aimed.direction[k], progress.x[k])
                &&& setting.config.lr == one::<S>() ==> moved.x[k] == aimed.direction[k].plus(
                    progress.x[k],
                )
            }
        },
{
    progress.x[k].neutral(progress.aimed(setting.config)->Ok_0.0.direction[k]);
}

/// The first iteration goes against the gradient, element by element, so that the loss
/// does not rise in its direction. Its distance is
/// not above the learning rate, and is the learning rate where the magnitudes of the
/// gradient add up to one or less, and the learning rate over their sum where that is
/// more. Nothing is remembered from before.
pub proof fn first_iteration_goes_against_the_gradient<S: Single>(
    progress: Progress<S>,
    config: LbfgsConfig<S>,
    k: int,
)
    requires
        lbfgs_config_error(config) is None,
        progress.n_iter == 0,
        is_finite_vector(progress.gradient),
        !peak(progress.gradient).at_most(config.tolerance_grad),
        progress.aimed(config) is Ok,
        0 <= k < progress.gradient.len(),
    ensures
        progress.aimed(config) matches Ok((aimed, slope)) && {
            let sum = S::rounded(wide_abs_sum(progress.gradient, progress.gradient.len() as int));
            &&& aimed.direction.len() == progress.gradient.len()
            &&& aimed.direction[k] == one::<S>().negated().times(progress.gradient[k])
            &&& aimed.history.len() == 0
            &&& aimed.scale == one::<S>()
            &&& slope.at_most(zero())
            &&& zero::<S>().at_most(aimed.t)
            &&& aimed.t.at_most(config.lr)
            &&& sum.at_most(one()) ==> aimed.t.same(config.lr)
            &&& one::<S>().over(sum).less(one()) ==> aimed.t == one::<S>().over(sum).times(
                config.lr,
            )
            &&& zero::<S>().at_most(progress.gradient[k]) && progress.x.len()
                == progress.gradient.len() && is_number(
                stepped_along(progress.x, aimed.t, aimed.direction)[k],
            ) ==> stepped_along(progress.x, aimed.t, aimed.direction)[k].at_most(progress.x[k])
            &&& progress.gradient[k].at_most(zero()) && progress.x.len()
                == progress.gradient.len() && is_number(
                stepped_along(progress.x, aimed.t, aimed.direction)[k],
            ) ==> progress.x[k].at_most(stepped_along(progress.x, aimed.t, aimed.direction)[k])
        },
{
    let unit = one::<S>();
    let gradient = progress.gradient;
    let sum = S::rounded(wide_abs_sum(gradient, gradient.len() as int));
    first_distance_is_not_negative(progress, config);
    sum_of_large_magnitudes_is_positive(gradient, config.tolerance_grad);
    zero_is_zero::<S>();
    gradient[k].neutral(unit);
    opposite_vectors_have_no_positive_product(
        "Lbfgs::try_step_closure: g·d (gtd)",
        gradient,
    );
    let quotient = unit.over(sum);
    unit.signs(sum);
    zero::<S>().order(sum, sum);
    zero::<S>().order(quotient, unit);
    unit.order(quotient, quotient);
    quotient.order(unit, unit);
    unit.order(unit, unit);
    unit.extremes(quotient);
    quotient.extremes(unit);
    let share = unit.smaller(quotient);
    share.order(quotient, unit);
    share.order(unit, unit);
    assert(in_unit_range(share));
    config.lr.signs(share);
    share.neutral(config.lr);
    unit.neutral(unit);
    if sum.at_most(unit) {
        sum.order(unit, unit);
        assert(unit.at_most(quotient));
        assert(share.same(unit));
        config.lr.neutral(unit);
        config.lr.order(config.lr, config.lr);
        unit.order(share, config.lr);
        share.order(unit, config.lr);
        unit.neutral(config.lr);
        share.times(config.lr).order(config.lr, config.lr);
    }
    let aimed = progress.aimed(config)->Ok_0.0;
    if progress.x.len() == gradient.len() {
        aimed.t.fused_operands(aimed.direction[k], progress.x[k]);
        gradient[k].signs(gradient[k]);
    }
}

/// The kept updates are bounded. Where the gradient has changed along with the
/// parameters by more than a ten billionth, the change and the movement become the
/// newest update, and the oldest one goes where there is no room; otherwise nothing
/// changes. The scale is the product of the two over the square of the change, which is
/// one where the gradient changed by what the parameters moved.
pub proof fn updates_are_kept_in_order<S: Single>(
    history_size: usize,
    history: Seq<UpdateModel<S>>,
    scale: S,
    change: Seq<S>,
    movement: Seq<S>,
)
    requires
        history.len() <= history_size,
        history_size > 0,
        remembered(history_size, history, scale, change, movement) is Ok,
    ensures
        remembered(history_size, history, scale, change, movement) matches Ok((next, after)) && {
            let product = dot("Lbfgs::try_step_closure: y·s (ys)", change, movement)->Ok_0;
            &&& next.len() <= history_size
            &&& !S::decimal(1, -10).less(product) ==> next == history && after == scale
            &&& S::decimal(1, -10).less(product) ==> {
                &&& next.len() > 0
                &&& next.last().change == change
                &&& next.last().movement == movement
                &&& is_number(next.last().inverse) ==> zero::<S>().at_most(next.last().inverse)
                &&& product == one::<S>() ==> next.last().inverse == one::<S>()
                &&& dot("Lbfgs::try_step_closure: y·y (yy)", change, change) matches Ok(square)
                    && after == product.over(square)
                &&& history.len() < history_size ==> next.drop_last() == history
                &&& history.len() == history_size ==> next.drop_last() == history.drop_first()
                &&& change == movement && product.over(S::decimal(2, 0)).less(product)
                    ==> after == one::<S>()
            }
        },
{
    let (next, after) = remembered(history_size, history, scale, change, movement)->Ok_0;
    let product = dot("Lbfgs::try_step_closure: y·s (ys)", change, movement)->Ok_0;
    one::<S>().neutral(one());
    product.neutral(one());
    zero_is_zero::<S>();
    S::decimals(0, 0, 0);
    S::decimals(0, 0, 1);
    S::decimals(0, 0, 2);
    S::decimals(0, 0, 3);
    S::decimals(0, 0, 4);
    S::decimals(0, 0, 5);
    S::decimals(0, 0, 6);
    S::decimals(0, 0, 7);
    S::decimals(0, 0, 8);
    S::decimals(0, 0, 9);
    S::decimals(0, 1, 10);
    zero::<S>().order(S::decimal(1, -10), product);
    one::<S>().signs(product);
    if S::decimal(1, -10).less(product) {
        assert(next.drop_last() =~= if history.len() == history_size {
            history.drop_first()
        } else {
            history
        });
    }
}

/// What an iteration remembers is how the gradient changed since the one before, and how
/// far the parameters moved, element by element.
pub proof fn iteration_remembers_what_it_saw<S: Single>(
    progress: Progress<S>,
    config: LbfgsConfig<S>,
    k: int,
)
    requires
        progress.n_iter > 0,
        progress.previous is Some,
        progress.history.len() <= config.history_size,
        config.history_size > 0,
        progress.gradient.len() == progress.direction.len(),
        0 <= k < progress.gradient.len(),
        progress.aimed(config) is Ok,
    ensures
        progress.aimed(config) matches Ok((aimed, _)) && {
            ||| aimed.history == progress.history
            ||| {
                &&& aimed.history.len() > 0
                &&& aimed.history.last().change[k] == progress.gradient[k].minus(
                    progress.previous->0[k],
                )
                &&& aimed.history.last().movement[k] == progress.direction[k].times(progress.t)
            }
        },
{
    updates_are_kept_in_order(
        config.history_size,
        progress.history,
        progress.scale,
        difference(progress.gradient, progress.previous->0),
        multiple(progress.direction, progress.t),
    );
}

/// Where the only update that is kept shows a curvature of one, the direction is the
/// negative gradient, whatever the scale: the Newton step.
pub proof fn unit_curvature_gives_the_newton_step<S: Single>(scale: S, g: S)
    requires
        scale.finite(),
        g.negated().finite(),
        !g.negated().same(zero()),
        g.negated().negated().negated() == g.negated(),
    ensures
        quasi_newton(
            seq![
                UpdateModel {
                    change: seq![one::<S>()],
                    movement: seq![one::<S>()],
                    inverse: one::<S>(),
                },
            ],
            scale,
            seq![g],
        ) matches Ok(direction) && direction.len() == 1 && direction[0].same(g.negated()),
{
    let ones = seq![one::<S>()];
    let update = UpdateModel { change: ones, movement: ones, inverse: one::<S>() };
    let history = seq![update];
    let h = g.negated();
    zero_is_zero::<S>();
    assert(opposite(seq![g]) =~= seq![h]);
    inner_product_with_one("Lbfgs::try_step_closure: two-loop al_i", h);
    h.neutral(one());
    h.neutral(h.negated());
    h.neutral(h);
    h.negated().neutral(h);
    h.negated().fused_operands(one(), h);
    let q = stepped_along(seq![h], h.negated(), ones);
    assert(q =~= seq![zero::<S>()]);
    reveal_with_fuel(backward, 2);
    let back = backward(history, 1, seq![h]);
    assert(Seq::<S>::empty().push(h) =~= seq![h]);
    assert(back == Ok::<_, ErrorModel>((q, seq![h])));
    let z = zero::<S>().times(scale);
    nothing_taken(scale);
    assert(multiple(q, scale) =~= seq![z]);
    inner_product_with_one("Lbfgs::try_step_closure: two-loop be_i", z);
    let product = dot("Lbfgs::try_step_closure: two-loop be_i", ones, seq![z])->Ok_0;
    product.neutral(one());
    product.order(z, zero());
    z.order(zero(), zero());
    zero::<S>().order(z, product);
    product.order(zero(), zero());
    zero::<S>().order(product, zero());
    nothing_added(h, product);
    let coefficient = h.minus(product);
    coefficient.order(h, h);
    h.order(coefficient, h);
    coefficient.fused_operands(one(), z);
    z.neutral(coefficient);
    nothing_added(coefficient, z);
    let moved = coefficient.fused(one(), z);
    moved.order(coefficient, h);
    h.order(coefficient, moved);
    h.order(moved, h);
    moved.order(h, h);
    reveal_with_fuel(forward, 2);
    let direction = stepped_along(seq![z], coefficient, ones);
    assert(direction =~= seq![moved]);
    assert(forward(history, seq![h], 1, seq![z]) == Ok::<_, ErrorModel>(direction));
    assert(is_finite_vector(direction));
}

/// A step evaluates at most what is asked for, or five quarters of its iterations. A line
/// search has what is left of that, up to its own limit.
pub proof fn evaluations_are_limited<S: Single>(
    setting: Setting<S>,
    config: LbfgsConfig<S>,
    evaluations: nat,
)
    requires
        evaluations <= setting.limit,
    ensures
        evaluation_limit(config) matches Some(limit) ==> {
            &&& config.max_eval is Some ==> Some(limit) == config.max_eval
            &&& config.max_eval is None ==> 4 * limit <= 5 * config.max_iter < 4 * limit + 4
        },
        setting.budget(evaluations) + evaluations <= setting.limit,
        setting.budget(evaluations) <= setting.config.line_search_steps,
        setting.budget(evaluations) == setting.config.line_search_steps || setting.budget(
            evaluations,
        ) + evaluations == setting.limit,
{
}

/// A step is over after its last iteration, when its evaluations are used up and when the
/// gradient is small enough, and otherwise only where neither the parameters nor the loss
/// have changed enough.
pub proof fn steps_end_for_a_reason<S: Single>(
    setting: Setting<S>,
    loss_before: S::Wide,
    progress: Progress<S>,
    is_last: bool,
)
    ensures
        is_last || progress.evaluations >= setting.limit || progress.optimal ==> setting.is_over(
            loss_before,
            progress,
            is_last,
        ),
        setting.is_over(loss_before, progress, is_last) && !is_last && progress.evaluations
            < setting.limit && !progress.optimal ==> {
            ||| peak(multiple(progress.direction, progress.t)).at_most(
                setting.config.tolerance_change,
            )
            ||| progress.loss.minus(loss_before).magnitude().less(
                setting.config.tolerance_change.widened(),
            )
        },
        progress.loss == loss_before && progress.loss.finite() && zero::<S::Wide>().less(
            setting.config.tolerance_change.widened(),
        ) ==> setting.is_over(loss_before, progress, is_last),
{
    let loss = progress.loss;
    let bound = setting.config.tolerance_change.widened();
    zero_is_zero::<S::Wide>();
    loss.neutral(loss);
    zero::<S::Wide>().signs(zero());
    zero::<S::Wide>().magnitude().order(zero(), bound);
}

/// The slope of an iteration is not positive where its direction is opposite to the
/// gradient, and not negative where it is that of the gradient.
pub proof fn slopes_follow_the_gradient<S: Single>(progress: Progress<S>, config: LbfgsConfig<S>)
    ensures
        progress.aimed(config) matches Ok((aimed, slope)) ==> {
            &&& aimed.direction == opposite(progress.gradient) ==> slope.at_most(zero())
            &&& aimed.direction == progress.gradient ==> zero::<S>().at_most(slope)
        },
{
    opposite_vectors_have_no_positive_product(
        "Lbfgs::try_step_closure: g·d (gtd)",
        progress.gradient,
    );
    squares_are_not_negative("Lbfgs::try_step_closure: g·d (gtd)", progress.gradient);
}

/// An iteration moves each element by the distance that it ends with, times its direction.
/// A fixed step keeps the distance that it was given.
pub proof fn iterations_move_by_their_distance<S: Single>(
    setting: Setting<S>,
    progress: Progress<S>,
    slope: S,
    is_last: bool,
    answers: Seq<Reply<S>>,
    k: int,
)
    requires
        0 <= k < progress.x.len(),
    ensures
        setting.moved(progress, slope, is_last, answers).result matches Ok(after) ==> {
            &&& after.x.len() == progress.x.len()
            &&& after.x[k] == after.t.fused(progress.direction[k], progress.x[k])
            &&& after.direction == progress.direction
            &&& after.history == progress.history
            &&& after.n_iter == progress.n_iter
            &&& setting.config.line_search == LbfgsLineSearch::FixedStep ==> after.t == progress.t
            &&& setting.config.line_search == LbfgsLineSearch::FixedStep && is_last
                ==> after.loss == progress.loss && after.evaluations == progress.evaluations
        },
{
}

/// An iteration that would not lead down moves nothing and evaluates nothing, where the
/// tolerance is above zero.
pub proof fn flat_directions_end_a_step<S: Single>(
    setting: Setting<S>,
    progress: Progress<S>,
    done: nat,
    answers: Seq<Reply<S>>,
)
    requires
        done < setting.config.max_iter,
        progress.aimed(setting.config) matches Ok((_, slope)) && zero::<S>().at_most(slope),
        setting.config.tolerance_change.negated().less(zero()),
    ensures
        setting.iterated(progress, done, answers).queries.len() == 0,
        setting.iterated(progress, done, answers).result matches Ok(after) && after.x
            == progress.x && after.loss == progress.loss,
{
    let slope = progress.aimed(setting.config)->Ok_0.1;
    setting.config.tolerance_change.negated().order(zero(), slope);
}

proof fn whole_quotient(x: int, k: int)
    requires
        k == 1 || k == 2,
    ensures
        quotient(k * 1_000_000_000 * x, 1_000_000_000) == k * x,
        quotient(x * (k * 1_000_000_000), 1_000_000_000) == k * x,
{
    assert(k * 1_000_000_000 * x == (k * x) * 1_000_000_000) by (nonlinear_arith);
    assert(x * (k * 1_000_000_000) == (k * x) * 1_000_000_000) by (nonlinear_arith);
    let y = k * x;
    assert((y * 1_000_000_000) / 1_000_000_000 == y);
    assert((-(y * 1_000_000_000)) / 1_000_000_000 == -y);
}

/// An update that counts twice: along a single coordinate, with an inverse of two and a
/// scale of one, it turns the gradient around when it is taken off and comes back with
/// three times the opposite of the gradient. Stated of [`Fixed`], which computes it
/// exactly.
pub proof fn update_that_counts_twice(g: Fixed)
    requires
        -1_000_000_000_000_000 <= g.units <= 1_000_000_000_000_000,
    ensures
        quasi_newton(
            seq![
                UpdateModel {
                    change: seq![one::<Fixed>()],
                    movement: seq![one::<Fixed>()],
                    inverse: Fixed { units: 2_000_000_000 },
                },
            ],
            one::<Fixed>(),
            seq![g],
        ) == Ok::<_, ErrorModel>(seq![Fixed { units: (-3 * g.units) as i64 }]),
{
    let unit = Fixed { units: UNITS };
    let two = Fixed { units: 2_000_000_000 };
    let ones = seq![one::<Fixed>()];
    let update = UpdateModel { change: ones, movement: ones, inverse: two };
    let history = seq![update];
    let n = -g.units;
    let h = Fixed { units: n as i64 };
    assert(ten_to(9) == 1_000_000_000) by {
        reveal_with_fuel(ten_to, 10);
    }
    assert(one::<Fixed>() == unit);
    assert(opposite(seq![g]) =~= seq![h]);
    whole_quotient(n, 1);
    whole_quotient(-n, 1);
    whole_quotient(-2 * n, 1);
    whole_quotient(4 * n, 1);
    whole_quotient(n, 2);
    whole_quotient(-n, 2);
    reveal_with_fuel(wide_dot, 2);
    assert(wide_dot(ones, seq![h], 1) == h);
    let a = h.times(two);
    assert(a.units == 2 * n);
    let down = a.negated();
    assert(down.units == -2 * n);
    let back = Fixed { units: (-n) as i64 };
    assert(down.fused(unit, h) == back) by {
        assert(down.units * unit.units == (-2 * n) * (1 * 1_000_000_000));
    }
    let q = stepped_along(seq![h], down, ones);
    assert(q =~= seq![back]);
    reveal_with_fuel(backward, 2);
    assert(Seq::<Fixed>::empty().push(a) =~= seq![a]);
    assert(backward(history, 1, seq![h]) == Ok::<_, ErrorModel>((q, seq![a])));
    assert(back.times(unit) == back);
    assert(multiple(q, one()) =~= seq![back]);
    assert(wide_dot(ones, seq![back], 1) == back);
    let b = back.times(two);
    assert(b.units == -2 * n);
    let up = a.minus(b);
    assert(up.units == 4 * n);
    let end = Fixed { units: (3 * n) as i64 };
    assert(up.fused(unit, back) == end) by {
        assert(up.units * unit.units == (4 * n) * (1 * 1_000_000_000));
    }
    reveal_with_fuel(forward, 2);
    let direction = stepped_along(seq![back], up, ones);
    assert(direction =~= seq![end]);
    assert(forward(history, seq![a], 1, seq![back]) == Ok::<_, ErrorModel>(direction));
    assert(is_finite_vector(direction));
}

} // verus!
