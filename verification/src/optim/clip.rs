//! Clipping of gradients.
use crate::error::{AutodiffError, ErrorModel, tell, told};
use crate::number::{Real, Single, in_unit_range, is_number, is_positive, one, positive, zero};
use crate::optim::amp::{all_finite, is_finite_tensor, referred, scaled_tensor};
use crate::optim::slots::models;
use crate::tensor::{Tensor, TensorModel, with_shape};
use crate::optim::direction::{against, number_has_a_side, part_of_a_number, sided, zero_is_zero};
use vstd::prelude::*;

verus! {

/// `start` plus the squares of the first `n` numbers, added up in order.
pub open spec fn squares_onto<S: Real>(start: S, data: Seq<S>, n: int) -> S
    decreases n,
{
    if n <= 0 {
        start
    } else {
        data[n - 1].fused(data[n - 1], squares_onto(start, data, n - 1))
    }
}

/// The sum of the squares of all elements of the first `n` tensors, added up in
/// order.
pub open spec fn all_squares<S: Real>(tensors: Seq<TensorModel<S>>, n: int) -> S
    decreases n,
{
    if n <= 0 {
        zero()
    } else {
        let data = tensors[n - 1].data;
        squares_onto(all_squares(tensors, n - 1), data, data.len() as int)
    }
}

/// The length of the vector that all elements of all tensors make up.
pub open spec fn global_norm<S: Real>(tensors: Seq<TensorModel<S>>) -> S {
    all_squares(tensors, tensors.len() as int).root()
}

/// The error of gradients whose norm is not finite.
pub open spec fn norm_not_finite<S: Real>(norm: S) -> ErrorModel {
    told(
        "global grad norm は非有限（勾配に NaN/Inf が含まれるか、二乗和がオーバーフローした）: ",
        norm,
    )
}

/// The length of the vector that all gradients make up, or an error where it is
/// not finite.
pub fn global_grad_norm<S: Single>(grads: &[&Tensor<S>]) -> (r: Result<S, AutodiffError>)
    ensures
        match r {
            Ok(norm) => norm == global_norm(referred(grads@)) && norm.finite(),
            Err(e) => !global_norm(referred(grads@)).finite() && e@ == norm_not_finite(global_norm(referred(grads@))),
        },
{
    let ghost all = referred(grads@);
    let mut sum: S = S::literal(0, 0);
    let mut i: usize = 0;
    while i < grads.len()
        invariant
            all == referred(grads@),
            i <= grads@.len(),
            sum == all_squares(all, i as int),
        decreases grads@.len() - i,
    {
        let data: &[S] = grads[i].as_slice();
        assert(all[i as int].data == data@);
        let ghost start = sum;
        let mut k: usize = 0;
        while k < data.len()
            invariant
                k <= data@.len(),
                sum == squares_onto(start, data@, k as int),
            decreases data@.len() - k,
        {
            sum = data[k].mul_add(data[k], sum);
            k = k + 1;
        }
        i = i + 1;
    }
    let norm: S = sum.sqrt();
    if !norm.is_finite() {
        return Err(tell("global grad norm は非有限（勾配に NaN/Inf が含まれるか、二乗和がオーバーフローした）: ", norm));
    }
    Ok(norm)
}

/// Gradients after clipping by their norm.
pub struct ClipGradResult<S> {
    pub grads: Vec<Tensor<S>>,
    /// The norm before clipping.
    pub total_norm: S,
    /// Whether the gradients have been scaled down.
    pub scaled: bool,
}

/// What gradients of the given norm are scaled by so that it comes down to
/// `max_norm`.
pub open spec fn clip_coefficient<S: Real>(max_norm: S, total_norm: S) -> S {
    max_norm.over(total_norm.plus(S::decimal(1, -6)))
}

/// Scales gradients down together so that their norm does not exceed `max_norm`.
/// Gradients whose norm does not exceed it are left as they are.
pub fn clip_grad_norm<S: Single>(grads: &[&Tensor<S>], max_norm: S) -> (r: Result<
    ClipGradResult<S>,
    AutodiffError,
>)
    ensures
        match r {
            Ok(clipped) => {
                let norm = global_norm(referred(grads@));
                let factor = clip_coefficient(max_norm, norm);
                &&& positive(max_norm)
                &&& norm.finite()
                &&& clipped.total_norm == norm
                &&& clipped.scaled == max_norm.less(norm)
                &&& models(clipped.grads@) == if max_norm.less(norm) {
                    referred(grads@).map_values(|t: TensorModel<S>| scaled_tensor(t, factor))
                } else {
                    referred(grads@)
                }
            },
            Err(e) => if !positive(max_norm) {
                e@ == told("max_norm は有限かつ正の値でなければならない: ", max_norm)
            } else {
                &&& !global_norm(referred(grads@)).finite()
                &&& e@ == norm_not_finite(global_norm(referred(grads@)))
            },
        },
{
    if !is_positive(max_norm) {
        return Err(tell("max_norm は有限かつ正の値でなければならない: ", max_norm));
    }
    let total_norm: S = match global_grad_norm(grads) {
        Err(e) => {
            return Err(e);
        },
        Ok(norm) => norm,
    };
    let factor: S = max_norm.div(total_norm.add(S::literal(1, -6)));
    let scaled: bool = max_norm.lt(total_norm);
    let mut out: Vec<Tensor<S>> = Vec::new();
    let mut i: usize = 0;
    while i < grads.len()
        invariant
            i <= grads@.len(),
            out@.len() == i,
            forall|k: int|
                0 <= k < i ==> (#[trigger] out@[k])@ == if scaled {
                    scaled_tensor(grads@[k]@, factor)
                } else {
                    grads@[k]@
                },
        decreases grads@.len() - i,
    {
        if scaled {
            let data: &[S] = grads[i].as_slice();
            let mut values: Vec<S> = Vec::new();
            let mut k: usize = 0;
            while k < data.len()
                invariant
                    k <= data@.len(),
                    values@.len() == k,
                    forall|j: int| 0 <= j < k ==> #[trigger] values@[j] == data@[j].times(factor),
                decreases data@.len() - k,
            {
                values.push(data[k].mul(factor));
                k = k + 1;
            }
            let tensor: Tensor<S> = with_shape(grads[i].shape(), values);
            assert(tensor@ =~= scaled_tensor(grads@[i as int]@, factor));
            out.push(tensor);
        } else {
            out.push(grads[i].duplicate());
        }
        i = i + 1;
    }
    proof {
        if scaled {
            assert(models(out@) =~= referred(grads@).map_values(
                |t: TensorModel<S>| scaled_tensor(t, factor),
            ));
        } else {
            assert(models(out@) =~= referred(grads@));
        }
    }
    Ok(ClipGradResult { grads: out, total_norm, scaled })
}

/// A tensor with every element brought into the range from `-limit` to `limit`.
pub open spec fn clamped_tensor<S: Real>(tensor: TensorModel<S>, limit: S) -> TensorModel<S> {
    TensorModel {
        shape: tensor.shape,
        data: tensor.data.map_values(|v: S| v.larger(limit.negated()).smaller(limit)),
    }
}

/// Whether element `k` of tensor `i` is the first that is not finite.
pub open spec fn first_not_finite<S: Real>(tensors: Seq<TensorModel<S>>, i: int, k: int) -> bool {
    &&& 0 <= i < tensors.len()
    &&& 0 <= k < tensors[i].data.len()
    &&& !tensors[i].data[k].finite()
    &&& forall|j: int| 0 <= j < i ==> #[trigger] is_finite_tensor(tensors[j])
    &&& forall|j: int| 0 <= j < k ==> (#[trigger] tensors[i].data[j]).finite()
}

/// The error of a gradient with an element that is not finite.
pub open spec fn element_not_finite<S: Real>(element: S) -> ErrorModel {
    told(
        "clip_grad_value に非有限の勾配要素が含まれる（NaN/Inf をクランプで隠蔽しない fail-closed 判断）: ",
        element,
    )
}

/// Brings every element of the gradients into the range from `-clip_value` to
/// `clip_value`. Elements that are not finite are refused, so that they are not
/// hidden.
pub fn clip_grad_value<S: Single>(grads: &[&Tensor<S>], clip_value: S) -> (r: Result<
    Vec<Tensor<S>>,
    AutodiffError,
>)
    ensures
        match r {
            Ok(clipped) => {
                &&& positive(clip_value)
                &&& all_finite(referred(grads@))
                &&& models(clipped@) == referred(grads@).map_values(
                    |t: TensorModel<S>| clamped_tensor(t, clip_value),
                )
            },
            Err(e) => if !positive(clip_value) {
                e@ == told("clip_value は有限かつ正の値でなければならない: ", clip_value)
            } else {
                &&& !all_finite(referred(grads@))
                &&& exists|i: int, k: int| #[trigger]
                    first_not_finite(referred(grads@), i, k) && e@ == element_not_finite(
                        referred(grads@)[i].data[k],
                    )
            },
        },
{
    if !is_positive(clip_value) {
        return Err(tell("clip_value は有限かつ正の値でなければならない: ", clip_value));
    }
    let mut out: Vec<Tensor<S>> = Vec::new();
    let mut i: usize = 0;
    while i < grads.len()
        invariant
            positive(clip_value),
            i <= grads@.len(),
            out@.len() == i,
            forall|k: int|
                0 <= k < i ==> (#[trigger] out@[k])@ == clamped_tensor(grads@[k]@, clip_value)
                    && is_finite_tensor(grads@[k]@),
        decreases grads@.len() - i,
    {
        let data: &[S] = grads[i].as_slice();
        let mut values: Vec<S> = Vec::new();
        let mut k: usize = 0;
        while k < data.len()
            invariant
                positive(clip_value),
                i < grads@.len(),
                out@.len() == i,
                forall|j: int|
                    0 <= j < i ==> (#[trigger] out@[j])@ == clamped_tensor(grads@[j]@, clip_value)
                        && is_finite_tensor(grads@[j]@),
                data@ == grads@[i as int]@.data,
                k <= data@.len(),
                values@.len() == k,
                forall|j: int|
                    0 <= j < k ==> #[trigger] values@[j] == data@[j].larger(
                        clip_value.negated(),
                    ).smaller(clip_value),
                forall|j: int| 0 <= j < k ==> (#[trigger] data@[j]).finite(),
            decreases data@.len() - k,
        {
            if !data[k].is_finite() {
                assert(!is_finite_tensor(referred(grads@)[i as int]));
                proof {
                    let all = referred(grads@);
                    assert forall|j: int| 0 <= j < i implies #[trigger] is_finite_tensor(
                        all[j],
                    ) by {
                        assert(out@[j]@ == clamped_tensor(grads@[j]@, clip_value));
                    }
                    assert(first_not_finite(all, i as int, k as int));
                }
                return Err(
                    tell(
                        "clip_grad_value に非有限の勾配要素が含まれる（NaN/Inf をクランプで隠蔽しない fail-closed 判断）: ",
                        data[k],
                    ),
                );
            }
            values.push(data[k].max(clip_value.neg()).min(clip_value));
            k = k + 1;
        }
        let tensor: Tensor<S> = with_shape(grads[i].shape(), values);
        assert(tensor@ =~= clamped_tensor(grads@[i as int]@, clip_value));
        out.push(tensor);
        i = i + 1;
    }
    assert(models(out@) =~= referred(grads@).map_values(
        |t: TensorModel<S>| clamped_tensor(t, clip_value),
    ));
    assert forall|k: int| 0 <= k < grads@.len() implies #[trigger] is_finite_tensor(
        referred(grads@)[k],
    ) by {
        assert(out@[k]@ == clamped_tensor(grads@[k]@, clip_value));
    }
    Ok(out)
}

/// An element inside the range is left as it is, and one outside of it becomes the
/// nearest end of the range.
pub proof fn clipping_by_value_takes_the_nearest<S: Real>(
    tensor: TensorModel<S>,
    limit: S,
    k: int,
)
    requires
        0 <= k < tensor.data.len(),
        limit.negated().less(limit),
    ensures
        ({
            let v = tensor.data[k];
            let clipped = clamped_tensor(tensor, limit).data[k];
            &&& limit.negated().less(v) && v.less(limit) ==> clipped == v
            &&& v.less(limit.negated()) ==> clipped == limit.negated()
            &&& limit.negated().less(v) && limit.less(v) ==> clipped == limit
        }),
{
    let v = tensor.data[k];
    v.extremes(limit.negated());
    limit.negated().extremes(v);
    v.extremes(limit);
    limit.extremes(v);
    limit.negated().extremes(limit);
}

/// Without gradients the norm is the root of zero.
pub proof fn norm_of_no_gradients<S: Real>()
    ensures
        global_norm(Seq::<TensorModel<S>>::empty()) == zero::<S>().root(),
{
}

/// The small number that a norm is increased by before it divides is positive.
proof fn norm_margin<S: Real>()
    ensures
        zero::<S>().less(S::decimal(1, -6)),
        S::decimal(1, -6).finite(),
{
    S::decimals(0, 0, 0);
    S::decimals(0, 0, 1);
    S::decimals(0, 0, 2);
    S::decimals(0, 0, 3);
    S::decimals(0, 0, 4);
    S::decimals(0, 0, 5);
    S::decimals(0, 1, 6);
    S::decimals(1, 1, 6);
}

/// Gradients whose norm is too large shrink: the coefficient lies from zero to one, so
/// that each element stays on its side and does not move away from zero. A larger limit
/// leaves more of it, and a larger norm less.
pub proof fn clipping_by_norm_shrinks<S: Real>(
    tensor: TensorModel<S>,
    max_norm: S,
    total_norm: S,
    other: S,
    k: int,
)
    requires
        positive(max_norm),
        total_norm.finite(),
        max_norm.less(total_norm),
        0 <= k < tensor.data.len(),
        is_number(scaled_tensor(tensor, clip_coefficient(max_norm, total_norm)).data[k]),
    ensures
        ({
            let factor = clip_coefficient(max_norm, total_norm);
            let clipped = scaled_tensor(tensor, factor);
            &&& in_unit_range(factor)
            &&& clipped.shape == tensor.shape
            &&& clipped.data.len() == tensor.data.len()
            &&& sided(tensor.data[k], clipped.data[k])
            &&& against(tensor.data[k], tensor.data[k], clipped.data[k])
            &&& max_norm.at_most(other) && is_number(clip_coefficient(other, total_norm))
                ==> factor.at_most(clip_coefficient(other, total_norm))
            &&& total_norm.at_most(other) && is_number(clip_coefficient(max_norm, other))
                ==> clip_coefficient(max_norm, other).at_most(factor)
        }),
{
    let margin = S::decimal(1, -6);
    let sum = total_norm.plus(margin);
    let factor = clip_coefficient(max_norm, total_norm);
    let x = tensor.data[k];
    norm_margin::<S>();
    zero_is_zero::<S>();
    zero::<S>().order(max_norm, total_norm);
    zero::<S>().order(max_norm, max_norm);
    zero::<S>().order(margin, margin);
    total_norm.signs(margin);
    max_norm.order(total_norm, sum);
    zero::<S>().order(max_norm, sum);
    max_norm.signs(sum);
    zero::<S>().order(factor, one());
    part_of_a_number_from_the_right(factor, x);
    if max_norm.at_most(other) {
        factor.order(factor, factor);
        max_norm.order(other, sum);
    }
    if total_norm.at_most(other) && is_number(clip_coefficient(max_norm, other)) {
        let more = other.plus(margin);
        max_norm.fused_operands(more, more);
        sum.order(sum, sum);
        max_norm.order(sum, sum);
        total_norm.order(other, margin);
        sum.order(more, max_norm);
    }
}

proof fn part_of_a_number_from_the_right<S: Real>(c: S, x: S)
    requires
        in_unit_range(c),
        is_number(x.times(c)),
    ensures
        sided(x, x.times(c)),
        against(x, x, x.times(c)),
{
    x.neutral(c);
    part_of_a_number(c, x);
}

proof fn squares_add_up<S: Real>(start: S, data: Seq<S>, n: int)
    requires
        0 <= n <= data.len(),
        is_number(squares_onto(start, data, n)),
    ensures
        start.at_most(squares_onto(start, data, n)),
    decreases n,
{
    if n > 0 {
        let x = data[n - 1];
        let before = squares_onto(start, data, n - 1);
        x.fused_operands(x, before);
        squares_add_up(start, data, n - 1);
        number_has_a_side(x);
        start.order(before, squares_onto(start, data, n));
    }
}

proof fn all_squares_of_prefix<S: Real>(
    a: Seq<TensorModel<S>>,
    b: Seq<TensorModel<S>>,
    n: int,
)
    requires
        0 <= n <= a.len(),
        n <= b.len(),
        forall|i: int| 0 <= i < n ==> a[i] == b[i],
    ensures
        all_squares(a, n) == all_squares(b, n),
    decreases n,
{
    if n > 0 {
        all_squares_of_prefix(a, b, n - 1);
    }
}

/// The norm is not negative, one more gradient does not make it smaller, and the norm of
/// a single element of one or two is that element.
pub proof fn norm_grows_with_the_gradients<S: Real>(
    tensors: Seq<TensorModel<S>>,
    tensor: TensorModel<S>,
)
    requires
        is_number(global_norm(tensors.push(tensor))),
    ensures
        zero::<S>().at_most(global_norm(tensors.push(tensor))),
        is_number(global_norm(tensors)) ==> global_norm(tensors).at_most(
            global_norm(tensors.push(tensor)),
        ),
        tensors.len() == 0 && tensor.data == seq![one::<S>()] ==> global_norm(tensors.push(tensor))
            == one::<S>(),
        tensors.len() == 0 && tensor.data == seq![S::decimal(2, 0)] ==> global_norm(
            tensors.push(tensor),
        ) == S::decimal(2, 0),
{
    let all = tensors.push(tensor);
    let n = tensors.len() as int;
    all_squares_of_prefix(tensors, all, n);
    let before = all_squares(tensors, n);
    let after = all_squares(all, n + 1);
    after.fused_operands(after, after);
    before.fused_operands(before, before);
    squares_add_up(before, tensor.data, tensor.data.len() as int);
    before.order(after, after);
    zero_is_zero::<S>();
    one::<S>().neutral(zero());
    zero::<S>().neutral(one());
    if n == 0 && tensor.data == seq![one::<S>()] {
        reveal_with_fuel(squares_onto, 2);
        S::decimals(0, 1, 0);
        zero::<S>().order(one(), one());
        one::<S>().order(zero(), zero());
    }
    if n == 0 && tensor.data == seq![S::decimal(2, 0)] {
        let two = S::decimal(2, 0);
        reveal_with_fuel(squares_onto, 2);
        S::decimals(2, 2, 0);
        two.neutral(two);
        two_squared_onto_nothing::<S>();
    }
}

proof fn two_squared_onto_nothing<S: Real>()
    ensures
        S::decimal(2, 0).fused(S::decimal(2, 0), zero()) == S::decimal(4, 0),
{
    S::decimal(2, 0).neutral(zero());
}

/// Every number is brought into the range.
pub proof fn clipped_values_lie_in_the_range<S: Real>(tensor: TensorModel<S>, limit: S, k: int)
    requires
        0 <= k < tensor.data.len(),
        is_number(tensor.data[k]),
        positive(limit),
        is_number(limit.negated()),
    ensures
        limit.negated().at_most(clamped_tensor(tensor, limit).data[k]),
        clamped_tensor(tensor, limit).data[k].at_most(limit),
        sided(tensor.data[k], clamped_tensor(tensor, limit).data[k]),
{
    let x = tensor.data[k];
    let low = limit.negated();
    let above = x.larger(low);
    let clipped = above.smaller(limit);
    zero_is_zero::<S>();
    zero::<S>().order(limit, limit);
    limit.signs(limit);
    low.order(zero(), limit);
    low.order(low, low);
    x.extremes(low);
    low.extremes(x);
    low.order(x, x);
    x.order(low, low);
    low.order(above, above);
    above.extremes(limit);
    limit.extremes(above);
    above.order(limit, limit);
    limit.order(above, above);
    low.order(limit, limit);
    zero::<S>().order(x, above);
    zero::<S>().order(x, low);
    above.order(zero(), limit);
}

} // verus!
