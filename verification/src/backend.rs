//! Results that a compute backend returns.
use crate::error::{AutodiffError, BackendError, ErrorModel, ShapeError};
use crate::tensor::{Tensor, TensorModel, copied, same_shape};
use vstd::prelude::*;

verus! {

/// The error of a backend whose result has the wrong shape.
pub open spec fn wrong_shape(found: Seq<usize>, expected: Seq<usize>) -> ErrorModel {
    ErrorModel::BackendShapeMismatch(
        Box::new(ErrorModel::ShapeMismatch { lhs: found, rhs: expected }),
    )
}

/// A result, where it has the shape that it must have.
pub open spec fn of_shape<S>(value: TensorModel<S>, shape: Seq<usize>) -> Result<
    TensorModel<S>,
    ErrorModel,
> {
    if value.shape == shape {
        Ok(value)
    } else {
        Err(wrong_shape(value.shape, shape))
    }
}

/// A returned tensor, or the error instead, as a mathematical value.
pub open spec fn outcome<S>(r: Result<Tensor<S>, AutodiffError>) -> Result<
    TensorModel<S>,
    ErrorModel,
> {
    match r {
        Ok(tensor) => Ok(tensor@),
        Err(e) => Err(e@),
    }
}

/// What a computation ends with that a backend was asked for, and that the host
/// makes where the backend does not offer it.
pub open spec fn settled<S>(
    shape: Seq<usize>,
    reply: Result<Tensor<S>, BackendError>,
    fallback: TensorModel<S>,
) -> Result<TensorModel<S>, ErrorModel> {
    match reply {
        Ok(value) => of_shape(value@, shape),
        Err(BackendError::Unsupported(_)) => of_shape(fallback, shape),
        Err(e) => Err(e@),
    }
}

/// Whether a backend replied that it does not offer a computation.
pub open spec fn is_unsupported<S>(reply: Result<Tensor<S>, BackendError>) -> bool {
    reply matches Err(BackendError::Unsupported(_))
}

/// Hands a result on if it has the given shape.
pub fn with_expected_shape<S>(value: Tensor<S>, shape: &[usize]) -> (r: Result<
    Tensor<S>,
    AutodiffError,
>)
    ensures
        outcome(r) == of_shape(value@, shape@),
{
    if same_shape(value.shape(), shape) {
        Ok(value)
    } else {
        Err(
            AutodiffError::Backend(
                BackendError::ShapeMismatch(
                    ShapeError::ShapeMismatch { lhs: copied(value.shape()), rhs: copied(shape) },
                ),
            ),
        )
    }
}

} // verus!
