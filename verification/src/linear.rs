//! A linear layer without a record of the computation.
use crate::error::{AutodiffError, BackendError, ErrorModel, ShapeError};
use crate::backend::outcome;
use crate::tensor::{Tensor, TensorModel};
use vstd::prelude::*;

verus! {

/// What is left of a result that a backend gives.
pub open spec fn reported<S>(reply: Result<Tensor<S>, BackendError>) -> Result<
    TensorModel<S>,
    ErrorModel,
> {
    match reply {
        Ok(value) => Ok(value@),
        Err(e) => Err(e@),
    }
}

fn report<S>(reply: Result<Tensor<S>, BackendError>) -> (r: Result<Tensor<S>, AutodiffError>)
    ensures
        outcome(r) == reported(reply),
{
    match reply {
        Ok(value) => Ok(value),
        Err(e) => Err(AutodiffError::Backend(e)),
    }
}

/// Multiplies an input by a weight and adds a bias where there is one.
///
/// `product_shape` and `sum_shape` say whether two shapes can be multiplied and
/// added. They are asked before `product` and `sum`, so that shapes that do not fit
/// are reported as such and not as a failure of the backend.
pub fn linear_forward_host<
    S,
    P: FnOnce(&[usize], &[usize]) -> Result<Vec<usize>, ShapeError>,
    M: FnOnce(&Tensor<S>, &Tensor<S>) -> Result<Tensor<S>, BackendError>,
    Q: FnOnce(&[usize], &[usize]) -> Result<Vec<usize>, ShapeError>,
    A: FnOnce(&Tensor<S>, &Tensor<S>) -> Result<Tensor<S>, BackendError>,
>(
    input: &Tensor<S>,
    weight: &Tensor<S>,
    bias: Option<&Tensor<S>>,
    product_shape: P,
    product: M,
    sum_shape: Q,
    sum: A,
) -> (r: Result<Tensor<S>, AutodiffError>)
    requires
        forall|a: &[usize], b: &[usize]| call_requires(product_shape, (a, b)),
        call_requires(product, (input, weight)),
        forall|a: &[usize], b: &[usize]| call_requires(sum_shape, (a, b)),
        bias matches Some(bias) ==> forall|y: &Tensor<S>| call_requires(sum, (y, bias)),
    ensures
        exists|a: &[usize], b: &[usize], fits: Result<Vec<usize>, ShapeError>|
            {
                &&& a@ == input@.shape && b@ == weight@.shape
                &&& #[trigger] call_ensures(product_shape, (a, b), fits)
                &&& match fits {
                    Err(e) => outcome(r) == Err::<TensorModel<S>, _>(e@),
                    Ok(_) => multiplied(input, weight, bias, product, sum_shape, sum, r),
                }
            },
{
    let fits: Result<Vec<usize>, ShapeError> = product_shape(input.shape(), weight.shape());
    let y: Tensor<S> = match fits {
        Err(e) => {
            return Err(AutodiffError::Shape(e));
        },
        Ok(_) => match product(input, weight) {
            Err(e) => {
                return Err(AutodiffError::Backend(e));
            },
            Ok(y) => y,
        },
    };
    match bias {
        None => Ok(y),
        Some(bias) => {
            let fits: Result<Vec<usize>, ShapeError> = sum_shape(y.shape(), bias.shape());
            match fits {
                Err(e) => Err(AutodiffError::Shape(e)),
                Ok(_) => {
                    let reply: Result<Tensor<S>, BackendError> = sum(&y, bias);
                    report(reply)
                },
            }
        },
    }
}

/// Whether a result is what comes of multiplying and adding where the shapes can be
/// multiplied.
pub open spec fn multiplied<
    S,
    M: FnOnce(&Tensor<S>, &Tensor<S>) -> Result<Tensor<S>, BackendError>,
    Q: FnOnce(&[usize], &[usize]) -> Result<Vec<usize>, ShapeError>,
    A: FnOnce(&Tensor<S>, &Tensor<S>) -> Result<Tensor<S>, BackendError>,
>(
    input: &Tensor<S>,
    weight: &Tensor<S>,
    bias: Option<&Tensor<S>>,
    product: M,
    sum_shape: Q,
    sum: A,
    r: Result<Tensor<S>, AutodiffError>,
) -> bool {
    exists|reply: Result<Tensor<S>, BackendError>|
        {
            &&& #[trigger] call_ensures(product, (input, weight), reply)
            &&& match (reply, bias) {
                (Err(e), _) => outcome(r) == Err::<TensorModel<S>, _>(e@),
                (Ok(y), None) => outcome(r) == Ok::<_, ErrorModel>(y@),
                (Ok(y), Some(bias)) => added(&y, bias, sum_shape, sum, r),
            }
        }
}

/// Whether a result is what comes of adding a bias.
pub open spec fn added<
    S,
    Q: FnOnce(&[usize], &[usize]) -> Result<Vec<usize>, ShapeError>,
    A: FnOnce(&Tensor<S>, &Tensor<S>) -> Result<Tensor<S>, BackendError>,
>(
    y: &Tensor<S>,
    bias: &Tensor<S>,
    sum_shape: Q,
    sum: A,
    r: Result<Tensor<S>, AutodiffError>,
) -> bool {
    exists|a: &[usize], b: &[usize], fits: Result<Vec<usize>, ShapeError>|
        {
            &&& a@ == y@.shape && b@ == bias@.shape
            &&& #[trigger] call_ensures(sum_shape, (a, b), fits)
            &&& match fits {
                Err(e) => outcome(r) == Err::<TensorModel<S>, _>(e@),
                Ok(_) => exists|reply: Result<Tensor<S>, BackendError>| #[trigger]
                    call_ensures(sum, (y, bias), reply) && outcome(r) == reported(reply),
            }
        }
}

} // verus!
