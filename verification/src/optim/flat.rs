//! Lists of tensors as single vectors, and arithmetic on such vectors.
use crate::error::{AutodiffError, ErrorModel};
use crate::number::{Real, Single, is_number, one, zero};
use crate::optim::slots::models;
use crate::tensor::{Tensor, TensorModel, checked_product, count, countable, with_shape};
use crate::text::{followed_by, joined};
use crate::optim::direction::{nothing_added, number_has_a_side, zero_is_zero};
use vstd::prelude::*;

verus! {

/// The elements of all tensors, one tensor after the other.
pub open spec fn flat<S>(tensors: Seq<TensorModel<S>>) -> Seq<S>
    decreases tensors.len(),
{
    if tensors.len() == 0 {
        Seq::empty()
    } else {
        flat(tensors.drop_last()) + tensors.last().data
    }
}

/// The number of elements of tensors with the first `n` of the given shapes.
pub open spec fn total(shapes: Seq<Seq<usize>>, n: int) -> nat
    decreases n,
{
    if n <= 0 {
        0
    } else {
        total(shapes, n - 1) + count(shapes[n - 1])
    }
}

/// The number of elements of tensors with the given shapes.
pub open spec fn size_of(shapes: Seq<Seq<usize>>) -> nat {
    total(shapes, shapes.len() as int)
}

/// The tensors of the given shapes whose elements make up a vector.
pub open spec fn unflat<S>(x: Seq<S>, shapes: Seq<Seq<usize>>) -> Seq<TensorModel<S>> {
    Seq::new(
        shapes.len(),
        |i: int|
            TensorModel {
                shape: shapes[i],
                data: x.subrange(total(shapes, i) as int, total(shapes, i + 1) as int),
            },
    )
}

/// The shapes of tensors.
pub open spec fn shapes_of<S>(tensors: Seq<TensorModel<S>>) -> Seq<Seq<usize>> {
    tensors.map_values(|t: TensorModel<S>| t.shape)
}

/// The contents of a list of shapes.
pub open spec fn shape_models(shapes: Seq<Vec<usize>>) -> Seq<Seq<usize>> {
    shapes.map_values(|s: Vec<usize>| s@)
}

proof fn total_of_prefix(a: Seq<Seq<usize>>, b: Seq<Seq<usize>>, n: int)
    requires
        n <= a.len(),
        n <= b.len(),
        forall|i: int| 0 <= i < n ==> a[i] == b[i],
    ensures
        total(a, n) == total(b, n),
    decreases n,
{
    if n > 0 {
        total_of_prefix(a, b, n - 1);
    }
}

proof fn total_grows(shapes: Seq<Seq<usize>>, m: int, n: int)
    requires
        m <= n,
    ensures
        total(shapes, m) <= total(shapes, n),
    decreases n - m,
{
    if m < n {
        total_grows(shapes, m, n - 1);
    }
}

/// A vector has as many elements as the tensors it is made from.
pub proof fn flat_has_all_elements<S>(tensors: Seq<TensorModel<S>>)
    requires
        forall|i: int| 0 <= i < tensors.len() ==> (#[trigger] tensors[i]).wf(),
    ensures
        flat(tensors).len() == size_of(shapes_of(tensors)),
    decreases tensors.len(),
{
    if tensors.len() > 0 {
        let front = tensors.drop_last();
        flat_has_all_elements(front);
        let n = front.len() as int;
        assert(tensors.last() == tensors[n]);
        total_of_prefix(shapes_of(front), shapes_of(tensors), n);
    }
}

proof fn flat_of_prefix<S>(tensors: Seq<TensorModel<S>>, i: int)
    requires
        0 <= i < tensors.len(),
    ensures
        flat(tensors.take(i + 1)) == flat(tensors.take(i)) + tensors[i].data,
{
    assert(tensors.take(i + 1).drop_last() =~= tensors.take(i));
}

/// Tensors are recovered from the vector of their elements.
pub proof fn unflat_inverts_flat<S>(tensors: Seq<TensorModel<S>>)
    requires
        forall|i: int| 0 <= i < tensors.len() ==> (#[trigger] tensors[i]).wf(),
    ensures
        unflat(flat(tensors), shapes_of(tensors)) == tensors,
    decreases tensors.len(),
{
    if tensors.len() > 0 {
        let front = tensors.drop_last();
        let n = front.len() as int;
        unflat_inverts_flat(front);
        flat_has_all_elements(front);
        flat_has_all_elements(tensors);
        assert(tensors.last() == tensors[n]);
        let all = unflat(flat(tensors), shapes_of(tensors));
        let part = unflat(flat(front), shapes_of(front));
        assert forall|i: int| 0 <= i < tensors.len() implies all[i] == tensors[i] by {
            total_of_prefix(shapes_of(front), shapes_of(tensors), n);
            if i < n {
                assert(part[i] == front[i]);
                total_of_prefix(shapes_of(front), shapes_of(tensors), i);
                total_of_prefix(shapes_of(front), shapes_of(tensors), i + 1);
                total_grows(shapes_of(front), i, i + 1);
                total_grows(shapes_of(front), i + 1, n);
                assert(all[i].data =~= part[i].data);
            } else {
                assert(all[i].data =~= tensors[i].data);
            }
        }
        assert(all =~= tensors);
    } else {
        assert(unflat(flat(tensors), shapes_of(tensors)) =~= tensors);
    }
}

/// The elements of all tensors, one tensor after the other.
pub fn flatten_tensors<S: Copy>(tensors: &[Tensor<S>]) -> (r: Vec<S>)
    ensures
        r@ == flat(models(tensors@)),
        r@.len() == size_of(shapes_of(models(tensors@))),
{
    let ghost all = models(tensors@);
    let mut out: Vec<S> = Vec::new();
    let mut i: usize = 0;
    assert(all.take(0) =~= Seq::empty());
    while i < tensors.len()
        invariant
            all == models(tensors@),
            i <= tensors@.len(),
            out@ == flat(all.take(i as int)),
            forall|k: int| 0 <= k < i ==> (#[trigger] all[k]).wf(),
        decreases tensors@.len() - i,
    {
        let data: &[S] = tensors[i].as_slice();
        proof {
            flat_of_prefix(all, i as int);
        }
        assert(all[i as int] == tensors@[i as int]@);
        let ghost before = out@;
        let mut k: usize = 0;
        while k < data.len()
            invariant
                k <= data@.len(),
                out@ == before + data@.take(k as int),
            decreases data@.len() - k,
        {
            out.push(data[k]);
            k = k + 1;
            assert(out@ =~= before + data@.take(k as int));
        }
        assert(data@.take(k as int) =~= data@);
        i = i + 1;
    }
    assert(all.take(i as int) =~= all);
    proof {
        flat_has_all_elements(all);
    }
    out
}

/// Whether tensors of all the shapes can be made.
pub open spec fn all_countable(shapes: Seq<Seq<usize>>) -> bool {
    forall|i: int| 0 <= i < shapes.len() ==> #[trigger] countable(shapes[i])
}

/// The tensors of the given shapes whose elements make up a vector.
pub fn unflatten_tensors<S: Copy>(flat: &[S], shapes: &Vec<Vec<usize>>) -> (r: Vec<Tensor<S>>)
    requires
        flat@.len() == size_of(shape_models(shapes@)),
        all_countable(shape_models(shapes@)),
    ensures
        models(r@) == unflat(flat@, shape_models(shapes@)),
{
    let ghost all = shape_models(shapes@);
    let size: usize = flat.len();
    let mut out: Vec<Tensor<S>> = Vec::new();
    let mut offset: usize = 0;
    let mut i: usize = 0;
    while i < shapes.len()
        invariant
            all == shape_models(shapes@),
            all_countable(all),
            size == flat@.len(),
            flat@.len() == size_of(all),
            i <= shapes@.len(),
            offset == total(all, i as int),
            out@.len() == i,
            forall|k: int| 0 <= k < i ==> (#[trigger] out@[k])@ == unflat(flat@, all)[k],
        decreases shapes@.len() - i,
    {
        let shape: &Vec<usize> = &shapes[i];
        assert(all[i as int] == shape@);
        proof {
            total_grows(all, i + 1, shapes@.len() as int);
        }
        assert(total(all, i + 1) == offset + count(shape@));
        let mut data: Vec<S> = Vec::new();
        let numel: usize = elements(shape);
        let mut k: usize = 0;
        while k < numel
            invariant
                numel == count(shape@),
                size == flat@.len(),
                offset + numel <= size,
                k <= numel,
                data@ == flat@.subrange(offset as int, offset + k),
            decreases numel - k,
        {
            data.push(flat[offset + k]);
            k = k + 1;
            assert(data@ =~= flat@.subrange(offset as int, offset + k));
        }
        let tensor: Tensor<S> = with_shape(shape.as_slice(), data);
        assert(tensor@ =~= unflat(flat@, all)[i as int]);
        out.push(tensor);
        offset = offset + numel;
        i = i + 1;
    }
    assert(models(out@) =~= unflat(flat@, all));
    out
}

fn elements(shape: &Vec<usize>) -> (r: usize)
    requires
        countable(shape@),
    ensures
        r == count(shape@),
{
    match checked_product(shape.as_slice()) {
        Some(n) => n,
        None => 0,
    }
}

/// The inner product of the first `n` elements of two vectors, in the wide
/// precision.
pub open spec fn wide_dot<S: Single>(a: Seq<S>, b: Seq<S>, n: int) -> S::Wide
    decreases n,
{
    if n <= 0 {
        zero()
    } else {
        a[n - 1].widened().fused(b[n - 1].widened(), wide_dot(a, b, n - 1))
    }
}

/// The error of a value, described by `label`, that is not finite.
pub open spec fn not_finite(label: &str) -> ErrorModel {
    ErrorModel::InvalidArgument(
        "Lbfgs: "@ + label@
            + " contains a non-finite value (likely overflow); state left unchanged"@,
    )
}

pub(crate) fn infinite(label: &str) -> (r: AutodiffError)
    ensures
        r@ == not_finite(label),
{
    AutodiffError::InvalidArgument(
        followed_by(
            joined("Lbfgs: ", label),
            " contains a non-finite value (likely overflow); state left unchanged",
        ),
    )
}

/// The error of an inner product, described by `label`, that is not finite when the
/// sum is rounded.
pub open spec fn overflowed<R: Real>(label: &str, sum: R) -> ErrorModel {
    ErrorModel::InvalidArgument(
        "Lbfgs: "@ + label@
            + " overflowed to a non-finite f32 value when rounding the f64 accumulator (acc="@
            + sum.shown() + "); state left unchanged"@,
    )
}

fn overflow<R: Real>(label: &str, sum: R) -> (r: AutodiffError)
    ensures
        r@ == overflowed(label, sum),
{
    let text: String = followed_by(
        joined("Lbfgs: ", label),
        " overflowed to a non-finite f32 value when rounding the f64 accumulator (acc=",
    );
    let text: String = followed_by(text, sum.show().as_str());
    AutodiffError::InvalidArgument(followed_by(text, "); state left unchanged"))
}

/// The inner product of two vectors, rounded once, or an error where it is then
/// not finite.
pub open spec fn dot<S: Single>(label: &str, a: Seq<S>, b: Seq<S>) -> Result<S, ErrorModel> {
    let sum = wide_dot(a, b, a.len() as int);
    if S::rounded(sum).finite() {
        Ok(S::rounded(sum))
    } else {
        Err(overflowed(label, sum))
    }
}

/// The inner product of two vectors. It is added up in the wide precision and
/// rounded once; `label` describes it in the error.
pub fn dot_f64<S: Single>(label: &str, a: &[S], b: &[S]) -> (r: Result<S, AutodiffError>)
    requires
        a@.len() == b@.len(),
    ensures
        match r {
            Ok(product) => dot(label, a@, b@) == Ok::<S, ErrorModel>(product),
            Err(e) => dot(label, a@, b@) == Err::<S, _>(e@),
        },
{
    let mut sum: S::Wide = <S::Wide as Real>::literal(0, 0);
    let mut i: usize = 0;
    while i < a.len()
        invariant
            a@.len() == b@.len(),
            i <= a@.len(),
            sum == wide_dot(a@, b@, i as int),
        decreases a@.len() - i,
    {
        sum = a[i].widen().mul_add(b[i].widen(), sum);
        i = i + 1;
    }
    let product: S = S::round(sum);
    if !product.is_finite() {
        return Err(overflow(label, sum));
    }
    Ok(product)
}

/// The sum of the magnitudes of the first `n` elements, in the wide precision.
pub open spec fn wide_abs_sum<S: Single>(a: Seq<S>, n: int) -> S::Wide
    decreases n,
{
    if n <= 0 {
        zero()
    } else {
        wide_abs_sum(a, n - 1).plus(a[n - 1].magnitude().widened())
    }
}

/// The sum of the magnitudes of all elements, in the wide precision.
pub fn abs_sum_f64<S: Single>(a: &[S]) -> (r: S::Wide)
    ensures
        r == wide_abs_sum(a@, a@.len() as int),
{
    let mut sum: S::Wide = <S::Wide as Real>::literal(0, 0);
    let mut i: usize = 0;
    while i < a.len()
        invariant
            i <= a@.len(),
            sum == wide_abs_sum(a@, i as int),
        decreases a@.len() - i,
    {
        sum = sum.add(a[i].abs().widen());
        i = i + 1;
    }
    sum
}

/// The largest magnitude among the first `n` elements, and at least zero.
pub open spec fn largest<S: Real>(a: Seq<S>, n: int) -> S
    decreases n,
{
    if n <= 0 {
        zero()
    } else {
        largest(a, n - 1).larger(a[n - 1].magnitude())
    }
}

/// The largest magnitude of an element.
pub open spec fn peak<S: Real>(a: Seq<S>) -> S {
    largest(a, a.len() as int)
}

pub fn abs_max<S: Real>(a: &[S]) -> (r: S)
    ensures
        r == peak(a@),
{
    let mut m: S = S::literal(0, 0);
    let mut i: usize = 0;
    while i < a.len()
        invariant
            i <= a@.len(),
            m == largest(a@, i as int),
        decreases a@.len() - i,
    {
        m = m.max(a[i].abs());
        i = i + 1;
    }
    m
}

/// Whether all elements of a vector are finite.
pub open spec fn is_finite_vector<S: Real>(a: Seq<S>) -> bool {
    forall|i: int| 0 <= i < a.len() ==> (#[trigger] a[i]).finite()
}

/// Refuses a vector that has an element that is not finite.
pub fn ensure_finite_slice<S: Real>(label: &str, x: &[S]) -> (r: Result<(), AutodiffError>)
    ensures
        r is Ok <==> is_finite_vector(x@),
        r is Err ==> r->Err_0@ == not_finite(label),
{
    let mut i: usize = 0;
    while i < x.len()
        invariant
            i <= x@.len(),
            forall|k: int| 0 <= k < i ==> (#[trigger] x@[k]).finite(),
        decreases x@.len() - i,
    {
        if !x[i].is_finite() {
            return Err(infinite(label));
        }
        i = i + 1;
    }
    Ok(())
}

/// The vector `scale * direction + start`.
pub open spec fn stepped_along<S: Real>(start: Seq<S>, scale: S, direction: Seq<S>) -> Seq<S> {
    Seq::new(start.len(), |k: int| scale.fused(direction[k], start[k]))
}

pub(crate) fn step_along<S: Real>(start: &[S], scale: S, direction: &[S]) -> (r: Vec<S>)
    requires
        start@.len() == direction@.len(),
    ensures
        r@ == stepped_along(start@, scale, direction@),
{
    let mut out: Vec<S> = Vec::new();
    let mut k: usize = 0;
    while k < start.len()
        invariant
            start@.len() == direction@.len(),
            k <= start@.len(),
            out@.len() == k,
            forall|i: int| 0 <= i < k ==> #[trigger] out@[i] == scale.fused(direction@[i], start@[i]),
        decreases start@.len() - k,
    {
        out.push(scale.mul_add(direction[k], start[k]));
        k = k + 1;
    }
    assert(out@ =~= stepped_along(start@, scale, direction@));
    out
}

/// A vector with every element negated.
pub open spec fn opposite<S: Real>(a: Seq<S>) -> Seq<S> {
    a.map_values(|v: S| v.negated())
}

pub(crate) fn negate<S: Real>(a: &Vec<S>) -> (r: Vec<S>)
    ensures
        r@ == opposite(a@),
{
    let mut out: Vec<S> = Vec::new();
    let mut k: usize = 0;
    while k < a.len()
        invariant
            k <= a@.len(),
            out@.len() == k,
            forall|i: int| 0 <= i < k ==> #[trigger] out@[i] == a@[i].negated(),
        decreases a@.len() - k,
    {
        out.push(a[k].neg());
        k = k + 1;
    }
    assert(out@ =~= opposite(a@));
    out
}

/// A vector with every element multiplied by `scale`.
pub open spec fn multiple<S: Real>(a: Seq<S>, scale: S) -> Seq<S> {
    a.map_values(|v: S| v.times(scale))
}

pub(crate) fn multiply<S: Real>(a: &Vec<S>, scale: S) -> (r: Vec<S>)
    ensures
        r@ == multiple(a@, scale),
{
    let mut out: Vec<S> = Vec::new();
    let mut k: usize = 0;
    while k < a.len()
        invariant
            k <= a@.len(),
            out@.len() == k,
            forall|i: int| 0 <= i < k ==> #[trigger] out@[i] == a@[i].times(scale),
        decreases a@.len() - k,
    {
        out.push(a[k].mul(scale));
        k = k + 1;
    }
    assert(out@ =~= multiple(a@, scale));
    out
}

/// The difference of two vectors.
pub open spec fn difference<S: Real>(a: Seq<S>, b: Seq<S>) -> Seq<S> {
    Seq::new(a.len(), |k: int| a[k].minus(b[k]))
}

pub(crate) fn subtract<S: Real>(a: &Vec<S>, b: &Vec<S>) -> (r: Vec<S>)
    requires
        a@.len() == b@.len(),
    ensures
        r@ == difference(a@, b@),
{
    let mut out: Vec<S> = Vec::new();
    let mut k: usize = 0;
    while k < a.len()
        invariant
            a@.len() == b@.len(),
            k <= a@.len(),
            out@.len() == k,
            forall|i: int| 0 <= i < k ==> #[trigger] out@[i] == a@[i].minus(b@[i]),
        decreases a@.len() - k,
    {
        out.push(a[k].sub(b[k]));
        k = k + 1;
    }
    assert(out@ =~= difference(a@, b@));
    out
}

/// Whether two tensors have the same shape and elements that compare equal.
pub open spec fn alike_tensors<S: Real>(a: TensorModel<S>, b: TensorModel<S>) -> bool {
    &&& a.shape == b.shape
    &&& a.data.len() == b.data.len()
    &&& forall|k: int| 0 <= k < a.data.len() ==> (#[trigger] a.data[k]).same(b.data[k])
}

/// Whether lists of tensors have the same shapes and elements that compare equal.
pub open spec fn alike<S: Real>(a: Seq<TensorModel<S>>, b: Seq<TensorModel<S>>) -> bool {
    &&& a.len() == b.len()
    &&& forall|i: int| 0 <= i < a.len() ==> alike_tensors(#[trigger] a[i], b[i])
}

pub(crate) proof fn alike_vectors_make_alike_tensors<S: Real>(
    a: Seq<S>,
    b: Seq<S>,
    shapes: Seq<Seq<usize>>,
)
    requires
        a.len() == size_of(shapes),
        b.len() == size_of(shapes),
        forall|k: int| 0 <= k < a.len() ==> (#[trigger] a[k]).same(b[k]),
    ensures
        alike(unflat(a, shapes), unflat(b, shapes)),
{
    let (p, q) = (unflat(a, shapes), unflat(b, shapes));
    assert forall|i: int| 0 <= i < p.len() implies alike_tensors(#[trigger] p[i], q[i]) by {
        total_grows(shapes, i, i + 1);
        total_grows(shapes, i + 1, shapes.len() as int);
    }
}

pub(crate) proof fn flat_of_finite_tensors_is_finite<S: Real>(tensors: Seq<TensorModel<S>>)
    requires
        forall|i: int| 0 <= i < tensors.len() ==> is_finite_vector((#[trigger] tensors[i]).data),
    ensures
        is_finite_vector(flat(tensors)),
    decreases tensors.len(),
{
    if tensors.len() > 0 {
        let front = tensors.drop_last();
        assert forall|i: int| 0 <= i < front.len() implies is_finite_vector(
            (#[trigger] front[i]).data,
        ) by {
            assert(is_finite_vector(tensors[i].data));
        }
        flat_of_finite_tensors_is_finite(front);
        let last = tensors[tensors.len() - 1];
        assert(is_finite_vector(last.data));
        let all = flat(tensors);
        assert forall|k: int| 0 <= k < all.len() implies (#[trigger] all[k]).finite() by {
            if k < flat(front).len() {
                assert(all[k] == flat(front)[k]);
            } else {
                assert(all[k] == last.data[k - flat(front).len()]);
            }
        }
    }
}

/// The largest magnitude is zero or that of an element.
proof fn largest_is_attained<S: Real>(a: Seq<S>, n: int)
    requires
        is_finite_vector(a),
        0 <= n <= a.len(),
    ensures
        zero::<S>().at_most(zero()),
        largest(a, n) == zero::<S>() || exists|k: int|
            0 <= k < n && largest(a, n) == (#[trigger] a[k]).magnitude(),
    decreases n,
{
    zero::<S>().unit_interval(zero());
    zero::<S>().order(zero(), zero());
    if n > 0 {
        largest_is_attained(a, n - 1);
        let so_far = largest(a, n - 1);
        if so_far != zero::<S>() {
            let k = choose|k: int| 0 <= k < n - 1 && so_far == (#[trigger] a[k]).magnitude();
            a[k].signs(a[k]);
            zero::<S>().order(so_far, so_far);
        }
        let last = a[n - 1].magnitude();
        a[n - 1].signs(a[n - 1]);
        zero::<S>().order(last, last);
        so_far.extremes(last);
    }
}

/// Each magnitude is at most the sum of all of them.
proof fn magnitudes_are_within_their_sum<S: Single>(a: Seq<S>, n: int)
    requires
        is_finite_vector(a),
        0 <= n <= a.len(),
    ensures
        zero::<S::Wide>().at_most(wide_abs_sum(a, n)),
        forall|k: int|
            0 <= k < n ==> (#[trigger] a[k]).magnitude().widened().at_most(wide_abs_sum(a, n)),
    decreases n,
{
    zero::<S::Wide>().unit_interval(zero());
    zero::<S::Wide>().order(zero(), zero());
    if n > 0 {
        magnitudes_are_within_their_sum(a, n - 1);
        let before = wide_abs_sum(a, n - 1);
        let last = a[n - 1].magnitude().widened();
        let sum = wide_abs_sum(a, n);
        a[n - 1].signs(a[n - 1]);
        a[n - 1].magnitude().precisions(last);
        before.signs(last);
        zero::<S::Wide>().order(before, sum);
        assert forall|k: int| 0 <= k < n implies (
        #[trigger] a[k]).magnitude().widened().at_most(sum) by {
            if k < n - 1 {
                a[k].magnitude().widened().order(before, sum);
            }
        }
    }
}

/// Where some magnitude is above a number that is not negative, the rounded sum of
/// the magnitudes is above zero.
pub(crate) proof fn sum_of_large_magnitudes_is_positive<S: Single>(a: Seq<S>, bound: S)
    requires
        is_finite_vector(a),
        zero::<S>().at_most(bound),
        !peak(a).at_most(bound),
    ensures
        zero::<S>().less(S::rounded(wide_abs_sum(a, a.len() as int))),
{
    let n = a.len() as int;
    largest_is_attained(a, n);
    let k = choose|k: int| 0 <= k < n && peak(a) == (#[trigger] a[k]).magnitude();
    let m = a[k].magnitude();
    a[k].signs(a[k]);
    zero::<S>().order(m, m);
    zero::<S>().order(bound, m);
    bound.order(m, m);
    magnitudes_are_within_their_sum(a, n);
    let sum = wide_abs_sum(a, n);
    m.precisions(sum);
    zero::<S>().order(m, S::rounded(sum));
}

proof fn wide_dot_is_symmetric<S: Single>(a: Seq<S>, b: Seq<S>, n: int)
    ensures
        wide_dot(a, b, n) == wide_dot(b, a, n),
    decreases n,
{
    if n > 0 {
        wide_dot_is_symmetric(a, b, n - 1);
        a[n - 1].widened().fused_operands(b[n - 1].widened(), wide_dot(a, b, n - 1));
    }
}

/// The order of the vectors of an inner product makes no difference.
pub proof fn inner_products_are_symmetric<S: Single>(label: &str, a: Seq<S>, b: Seq<S>)
    requires
        a.len() == b.len(),
    ensures
        dot(label, a, b) == dot(label, b, a),
{
    wide_dot_is_symmetric(a, b, a.len() as int);
}

proof fn wide_square_is_not_negative<S: Single>(a: Seq<S>, n: int)
    requires
        is_number(wide_dot(a, a, n)),
    ensures
        zero::<S::Wide>().at_most(wide_dot(a, a, n)),
    decreases n,
{
    zero_is_zero::<S::Wide>();
    if n > 0 {
        let x = a[n - 1].widened();
        let before = wide_dot(a, a, n - 1);
        x.fused_operands(x, before);
        wide_square_is_not_negative(a, n - 1);
        number_has_a_side(x);
        zero::<S::Wide>().order(before, wide_dot(a, a, n));
    }
}

/// The inner product of a vector with itself is not negative.
pub proof fn squares_are_not_negative<S: Single>(label: &str, a: Seq<S>)
    ensures
        dot(label, a, a) matches Ok(square) ==> zero::<S>().at_most(square),
{
    let sum = wide_dot(a, a, a.len() as int);
    if dot(label, a, a) is Ok {
        S::rounded(sum).order(S::rounded(sum), S::rounded(sum));
        zero::<S>().precisions(sum);
        wide_square_is_not_negative(a, a.len() as int);
    }
}

/// A number and the inner product of the vectors with only that number and only one are
/// the same.
pub proof fn inner_product_with_one<S: Single>(label: &str, x: S)
    requires
        x.finite(),
    ensures
        dot(label, seq![one::<S>()], seq![x]) matches Ok(product) && product.same(x) && (!x.same(
            zero(),
        ) ==> product == x),
{
    let wide = x.widened();
    let unit = one::<S::Wide>();
    let sum = wide_dot(seq![one::<S>()], seq![x], 1);
    reveal_with_fuel(wide_dot, 2);
    one::<S>().precisions(wide);
    zero::<S>().precisions(wide);
    x.precisions(wide);
    zero_is_zero::<S::Wide>();
    assert(sum == unit.fused(wide, zero()));
    zero::<S::Wide>().neutral(wide);
    wide.neutral(zero());
    assert(sum == wide.plus(zero()));
    nothing_added(wide, zero());
    sum.order(wide, wide);
    x.precisions(sum);
    S::rounded(sum).order(x, x);
    x.order(S::rounded(sum), x);
    x.order(zero(), zero());
    wide.order(zero(), zero());
}

/// A step by one along a vector adds it, and a step by minus one takes it off.
pub proof fn unit_steps<S: Real>(start: Seq<S>, direction: Seq<S>, k: int)
    requires
        0 <= k < start.len(),
    ensures
        stepped_along(start, one(), direction)[k] == direction[k].plus(start[k]),
        stepped_along(start, one::<S>().negated(), direction)[k] == start[k].minus(direction[k]),
        multiple(start, one())[k] == start[k],
        opposite(start)[k] == one::<S>().negated().times(start[k]),
{
    start[k].neutral(direction[k]);
}

proof fn largest_bounds_all<S: Real>(a: Seq<S>, n: int)
    requires
        is_finite_vector(a),
        0 <= n <= a.len(),
    ensures
        is_number(largest(a, n)),
        zero::<S>().at_most(largest(a, n)),
        forall|k: int| 0 <= k < n ==> (#[trigger] a[k]).magnitude().at_most(largest(a, n)),
    decreases n,
{
    zero_is_zero::<S>();
    if n > 0 {
        largest_bounds_all(a, n - 1);
        let before = largest(a, n - 1);
        let last = a[n - 1].magnitude();
        let next = largest(a, n);
        a[n - 1].signs(a[n - 1]);
        zero::<S>().order(last, last);
        last.extremes(before);
        before.extremes(last);
        last.order(next, next);
        last.order(before, before);
        before.order(before, before);
        zero::<S>().order(before, next);
        assert forall|k: int| 0 <= k < n implies (#[trigger] a[k]).magnitude().at_most(next) by {
            if k < n - 1 {
                a[k].magnitude().order(before, next);
            }
        }
    }
}

/// No element is further from zero than the largest magnitude, and one is as far, unless
/// there is none.
pub proof fn peak_is_the_largest_magnitude<S: Real>(a: Seq<S>)
    requires
        is_finite_vector(a),
        a.len() > 0,
        !peak(a).same(zero()),
    ensures
        forall|k: int| 0 <= k < a.len() ==> (#[trigger] a[k]).magnitude().at_most(peak(a)),
        exists|k: int| 0 <= k < a.len() && peak(a) == (#[trigger] a[k]).magnitude(),
{
    largest_bounds_all(a, a.len() as int);
    zero_is_zero::<S>();
    zero::<S>().neutral(zero());
    largest_is_attained(a, a.len() as int);
}

proof fn wide_dot_with_the_opposite<S: Single>(a: Seq<S>, n: int)
    requires
        0 <= n <= a.len(),
        is_number(wide_dot(a, opposite(a), n)),
    ensures
        wide_dot(a, opposite(a), n).at_most(zero()),
    decreases n,
{
    zero_is_zero::<S::Wide>();
    if n > 0 {
        let (x, y) = (a[n - 1].widened(), opposite(a)[n - 1].widened());
        let before = wide_dot(a, opposite(a), n - 1);
        let after = wide_dot(a, opposite(a), n);
        x.fused_operands(y, before);
        wide_dot_with_the_opposite(a, n - 1);
        a[n - 1].precisions(x);
        a[n - 1].negated().precisions(y);
        zero::<S>().precisions(x);
        number_has_a_side(a[n - 1]);
        a[n - 1].signs(a[n - 1]);
        after.order(before, zero());
    }
}

/// The inner product of a vector with its opposite is not positive.
pub proof fn opposite_vectors_have_no_positive_product<S: Single>(label: &str, a: Seq<S>)
    ensures
        dot(label, a, opposite(a)) matches Ok(product) ==> product.at_most(zero()),
{
    let sum = wide_dot(a, opposite(a), a.len() as int);
    if dot(label, a, opposite(a)) is Ok {
        S::rounded(sum).order(S::rounded(sum), S::rounded(sum));
        zero::<S>().precisions(sum);
        wide_dot_with_the_opposite(a, a.len() as int);
    }
}

} // verus!
