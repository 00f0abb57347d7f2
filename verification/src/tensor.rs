//! Dense tensors in row-major order.
use crate::error::{AutodiffError, ErrorModel, ShapeError};
use vstd::prelude::*;

verus! {

/// The number of elements that a shape holds.
pub open spec fn count(shape: Seq<usize>) -> nat
    decreases shape.len(),
{
    if shape.len() == 0 {
        1
    } else {
        count(shape.drop_last()) * (shape.last() as nat)
    }
}

/// Whether the number of elements of `shape` and of each of its leading parts
/// fits in `usize`.
pub open spec fn countable(shape: Seq<usize>) -> bool
    decreases shape.len(),
{
    &&& count(shape) <= usize::MAX
    &&& shape.len() > 0 ==> countable(shape.drop_last())
}

/// The position in row-major order of the element at `index`.
pub open spec fn offset(shape: Seq<usize>, index: Seq<usize>) -> nat
    decreases shape.len(),
{
    if shape.len() == 0 || index.len() == 0 {
        0
    } else {
        offset(shape.drop_last(), index.drop_last()) * (shape.last() as nat) + (index.last() as nat)
    }
}

/// Whether `index` names an element of a tensor of the given shape.
pub open spec fn in_bounds(shape: Seq<usize>, index: Seq<usize>) -> bool {
    &&& index.len() == shape.len()
    &&& forall|i: int| 0 <= i < shape.len() ==> index[i] < shape[i]
}

/// The shape and the elements of a tensor, as mathematical values.
#[verifier::ext_equal]
pub struct TensorModel<T> {
    pub shape: Seq<usize>,
    pub data: Seq<T>,
}

impl<T> TensorModel<T> {
    /// Whether there are as many elements as the shape asks for.
    pub open spec fn wf(self) -> bool {
        count(self.shape) == self.data.len()
    }

    /// The element at `index`.
    pub open spec fn at(self, index: Seq<usize>) -> T {
        self.data[offset(self.shape, index) as int]
    }
}

/// A tensor whose elements lie in row-major order.
#[derive(Debug)]
pub struct Tensor<T> {
    shape: Vec<usize>,
    data: Vec<T>,
}

impl<T> View for Tensor<T> {
    type V = TensorModel<T>;

    closed spec fn view(&self) -> TensorModel<T> {
        TensorModel { shape: self.shape@, data: self.data@ }
    }
}

/// An element's position lies below the number of elements.
pub proof fn offset_is_below_count(shape: Seq<usize>, index: Seq<usize>)
    requires
        in_bounds(shape, index),
    ensures
        offset(shape, index) < count(shape),
    decreases shape.len(),
{
    if shape.len() > 0 {
        offset_is_below_count(shape.drop_last(), index.drop_last());
        let o = offset(shape.drop_last(), index.drop_last()) as int;
        let c = count(shape.drop_last()) as int;
        let d = shape.last() as int;
        let i = index.last() as int;
        assert(o * d + i < c * d) by (nonlinear_arith)
            requires
                o + 1 <= c,
                0 <= i < d,
        ;
    }
}

/// A part of a countable shape that starts at its front is countable.
pub(crate) proof fn countable_prefix(shape: Seq<usize>, k: int)
    requires
        countable(shape),
        0 <= k <= shape.len(),
    ensures
        countable(shape.take(k)),
    decreases shape.len(),
{
    if k < shape.len() {
        assert(shape.take(k) =~= shape.drop_last().take(k));
        countable_prefix(shape.drop_last(), k);
    } else {
        assert(shape.take(k) =~= shape);
    }
}

/// The product of `dims`, or `None` where it or one of the intermediate products
/// does not fit in `usize`.
pub fn checked_product(dims: &[usize]) -> (r: Option<usize>)
    ensures
        r is Some <==> countable(dims@),
        r is Some ==> r->0 == count(dims@),
{
    let mut product: usize = 1;
    let mut i: usize = 0;
    assert(dims@.take(0) =~= Seq::<usize>::empty());
    while i < dims.len()
        invariant
            i <= dims.len(),
            product == count(dims@.take(i as int)),
            countable(dims@.take(i as int)),
        decreases dims.len() - i,
    {
        assert(dims@.take(i + 1).drop_last() =~= dims@.take(i as int));
        match product.checked_mul(dims[i]) {
            Some(next) => {
                product = next;
            },
            None => {
                proof {
                    if countable(dims@) {
                        countable_prefix(dims@, i + 1);
                    }
                }
                return None;
            },
        }
        i = i + 1;
    }
    assert(dims@.take(i as int) =~= dims@);
    Some(product)
}

/// Whether two shapes are equal.
pub fn same_shape(a: &[usize], b: &[usize]) -> (r: bool)
    ensures
        r == (a@ == b@),
{
    if a.len() != b.len() {
        return false;
    }
    let mut i: usize = 0;
    while i < a.len()
        invariant
            a.len() == b.len(),
            i <= a.len(),
            forall|j: int| 0 <= j < i ==> a@[j] == b@[j],
        decreases a.len() - i,
    {
        if a[i] != b[i] {
            return false;
        }
        i = i + 1;
    }
    assert(a@ =~= b@);
    true
}

/// A copy of the elements of `v`.
pub fn copied<T: Copy>(v: &[T]) -> (r: Vec<T>)
    ensures
        r@ == v@,
{
    let mut out: Vec<T> = Vec::new();
    let mut i: usize = 0;
    while i < v.len()
        invariant
            i <= v.len(),
            out@ == v@.take(i as int),
        decreases v.len() - i,
    {
        out.push(v[i]);
        i = i + 1;
        assert(out@ =~= v@.take(i as int));
    }
    assert(v@.take(i as int) =~= v@);
    out
}

/// The error of two shapes that have to agree.
pub(crate) fn shape_mismatch(lhs: &[usize], rhs: &[usize]) -> (r: AutodiffError)
    ensures
        r@ == (ErrorModel::ShapeMismatch { lhs: lhs@, rhs: rhs@ }),
{
    AutodiffError::Shape(ShapeError::ShapeMismatch { lhs: copied(lhs), rhs: copied(rhs) })
}

/// What [`Tensor::new`] returns.
pub open spec fn tensor_of<T>(data: Seq<T>, shape: Seq<usize>) -> Result<
    TensorModel<T>,
    ErrorModel,
> {
    if !countable(shape) {
        Err(ErrorModel::ElementCountOverflow)
    } else if count(shape) != data.len() {
        Err(
            ErrorModel::ElementCountMismatch {
                expected: count(shape) as usize,
                actual: data.len() as usize,
            },
        )
    } else {
        Ok(TensorModel { shape, data })
    }
}

impl<T> Tensor<T> {
    #[verifier::type_invariant]
    pub closed spec fn wf(&self) -> bool {
        count(self.shape@) == self.data@.len() && countable(self.shape@)
    }

    /// The tensor of the given shape that holds `data` in row-major order.
    pub fn new(data: Vec<T>, shape: &[usize]) -> (r: Result<Tensor<T>, AutodiffError>)
        ensures
            match r {
                Ok(t) => tensor_of(data@, shape@) == Ok::<_, ErrorModel>(t@),
                Err(e) => tensor_of(data@, shape@) == Err::<TensorModel<T>, _>(e@),
            },
    {
        match checked_product(shape) {
            None => Err(AutodiffError::Shape(ShapeError::ElementCountOverflow)),
            Some(expected) => {
                if expected != data.len() {
                    return Err(
                        AutodiffError::Shape(
                            ShapeError::ElementCountMismatch { expected, actual: data.len() },
                        ),
                    );
                }
                Ok(Tensor { shape: copied(shape), data })
            },
        }
    }

    /// A tensor without dimensions that holds `value`.
    pub fn scalar(value: T) -> (r: Tensor<T>)
        ensures
            r@ == (TensorModel { shape: Seq::empty(), data: seq![value] }),
    {
        let mut data: Vec<T> = Vec::new();
        data.push(value);
        let shape: Vec<usize> = Vec::new();
        assert(data@ =~= seq![value]);
        Tensor { shape, data }
    }

    pub fn shape(&self) -> (r: &[usize])
        ensures
            r@ == self@.shape,
    {
        self.shape.as_slice()
    }

    pub fn rank(&self) -> (r: usize)
        ensures
            r == self@.shape.len(),
    {
        self.shape.len()
    }

    pub fn numel(&self) -> (r: usize)
        ensures
            r == count(self@.shape),
    {
        proof {
            use_type_invariant(self);
        }
        self.data.len()
    }

    /// The elements in row-major order.
    pub fn as_slice(&self) -> (r: &[T])
        ensures
            r@ == self@.data,
            self@.wf(),
            countable(self@.shape),
    {
        proof {
            use_type_invariant(self);
        }
        self.data.as_slice()
    }
}

impl<T: Copy> Tensor<T> {
    /// The element at `index`, or `None` where there is none.
    pub fn get(&self, index: &[usize]) -> (r: Option<T>)
        ensures
            r is Some <==> in_bounds(self@.shape, index@),
            r is Some ==> r->0 == self@.at(index@),
    {
        proof {
            use_type_invariant(self);
        }
        if index.len() != self.shape.len() {
            return None;
        }
        let mut position: usize = 0;
        let mut i: usize = 0;
        while i < index.len()
            invariant
                index.len() == self.shape.len(),
                countable(self.shape@),
                i <= index.len(),
                in_bounds(self.shape@.take(i as int), index@.take(i as int)),
                position == offset(self.shape@.take(i as int), index@.take(i as int)),
            decreases index.len() - i,
        {
            if index[i] >= self.shape[i] {
                return None;
            }
            proof {
                assert(self.shape@.take(i + 1).drop_last() =~= self.shape@.take(i as int));
                assert(index@.take(i + 1).drop_last() =~= index@.take(i as int));
                assert(in_bounds(self.shape@.take(i + 1), index@.take(i + 1)));
                offset_is_below_count(self.shape@.take(i + 1), index@.take(i + 1));
                countable_prefix(self.shape@, i + 1);
                let p = position as int;
                let d = self.shape@[i as int] as int;
                assert(p * d >= 0) by (nonlinear_arith)
                    requires
                        p >= 0,
                        d >= 0,
                ;
            }
            position = position * self.shape[i] + index[i];
            i = i + 1;
        }
        proof {
            assert(self.shape@.take(i as int) =~= self.shape@);
            assert(index@.take(i as int) =~= index@);
            offset_is_below_count(self.shape@, index@);
        }
        Some(self.data[position])
    }

    /// A tensor with the same shape and the same elements.
    pub fn duplicate(&self) -> (r: Tensor<T>)
        ensures
            r@ == self@,
    {
        proof {
            use_type_invariant(self);
        }
        Tensor { shape: copied(self.shape.as_slice()), data: copied(self.data.as_slice()) }
    }
}

impl<T: Copy> Clone for Tensor<T> {
    fn clone(&self) -> (r: Self)
        ensures
            r@ == self@,
    {
        self.duplicate()
    }
}

/// The tensor of a shape that another tensor already has, with other elements.
pub(crate) fn with_shape<T>(shape: &[usize], data: Vec<T>) -> (r: Tensor<T>)
    requires
        countable(shape@),
        count(shape@) == data@.len(),
    ensures
        r@ == (TensorModel { shape: shape@, data: data@ }),
{
    Tensor { shape: copied(shape), data }
}

/// A vector that holds `n` times `x`.
pub(crate) fn repeated<T: Copy>(x: T, n: usize) -> (r: Vec<T>)
    ensures
        r@ == Seq::new(n as nat, |i: int| x),
{
    let mut out: Vec<T> = Vec::new();
    let mut i: usize = 0;
    while i < n
        invariant
            i <= n,
            out@.len() == i,
            forall|k: int| 0 <= k < i ==> out@[k] == x,
        decreases n - i,
    {
        out.push(x);
        i = i + 1;
    }
    assert(out@ =~= Seq::new(n as nat, |i: int| x));
    out
}

} // verus!
