//! Activation functions along an axis.
use crate::backend::{is_unsupported, outcome, settled, with_expected_shape};
use crate::error::{AutodiffError, BackendError, ErrorModel, ShapeError};
use crate::module::{Module, no_parameters, refuse_parameter, unknown_parameter};
use crate::tensor::{Tensor, TensorModel};
use vstd::prelude::*;

verus! {

/// Computes a function along an axis with a backend, or on the host where the
/// backend does not offer it.
fn along_axis<
    S,
    B: FnOnce(&Tensor<S>, usize) -> Result<Tensor<S>, BackendError>,
    H: FnOnce(&Tensor<S>, usize) -> Tensor<S>,
>(input: &Tensor<S>, axis: usize, backend: B, host: H) -> (r: Result<Tensor<S>, AutodiffError>)
    requires
        call_requires(backend, (input, axis)),
        call_requires(host, (input, axis)),
    ensures
        along_axis_outcome(input, axis, backend, host, r),
{
    if axis >= input.rank() {
        return Err(
            AutodiffError::Shape(ShapeError::AxisOutOfRange { axis, rank: input.rank() }),
        );
    }
    let reply: Result<Tensor<S>, BackendError> = backend(input, axis);
    let ghost replied = reply;
    let ghost mut fallback: TensorModel<S> = input@;
    let r: Result<Tensor<S>, AutodiffError> = match reply {
        Ok(value) => with_expected_shape(value, input.shape()),
        Err(BackendError::Unsupported(_)) => {
            let value: Tensor<S> = host(input, axis);
            proof {
                fallback = value@;
            }
            with_expected_shape(value, input.shape())
        },
        Err(e) => Err(AutodiffError::Backend(e)),
    };
    assert(outcome(r) == settled(input@.shape, replied, fallback));
    r
}

/// Whether a tensor, or an error, is what computing a function along an axis ends
/// with: the axis must be one of the input's, and the result must have the shape of
/// the input.
pub open spec fn along_axis_outcome<
    S,
    B: FnOnce(&Tensor<S>, usize) -> Result<Tensor<S>, BackendError>,
    H: FnOnce(&Tensor<S>, usize) -> Tensor<S>,
>(
    input: &Tensor<S>,
    axis: usize,
    backend: B,
    host: H,
    r: Result<Tensor<S>, AutodiffError>,
) -> bool {
    if axis >= input@.shape.len() {
        outcome(r) == Err::<TensorModel<S>, _>(
            ErrorModel::AxisOutOfRange { axis, rank: input@.shape.len() as usize },
        )
    } else {
        exists|reply: Result<Tensor<S>, BackendError>, fallback: TensorModel<S>|
            {
                &&& call_ensures(backend, (input, axis), reply)
                &&& is_unsupported(reply) ==> exists|value: Tensor<S>|
                    #[trigger] call_ensures(host, (input, axis), value) && value@ == fallback
                &&& outcome(r) == #[trigger] settled(input@.shape, reply, fallback)
            }
    }
}

/// Exponentials along an axis, scaled to sum up to one.
#[derive(Debug, Clone, Copy)]
pub struct Softmax {
    dim: usize,
}

impl View for Softmax {
    type V = usize;

    closed spec fn view(&self) -> usize {
        self.dim
    }
}

impl Softmax {
    pub fn new(dim: usize) -> (r: Softmax)
        ensures
            r@ == dim,
    {
        Softmax { dim }
    }

    /// The axis.
    pub fn dim(&self) -> (r: usize)
        ensures
            r == self@,
    {
        self.dim
    }

    pub fn forward_host<
        S,
        B: FnOnce(&Tensor<S>, usize) -> Result<Tensor<S>, BackendError>,
        H: FnOnce(&Tensor<S>, usize) -> Tensor<S>,
    >(&self, input: &Tensor<S>, backend: B, host: H) -> (r: Result<Tensor<S>, AutodiffError>)
        requires
            call_requires(backend, (input, self@)),
            call_requires(host, (input, self@)),
        ensures
            along_axis_outcome(input, self@, backend, host, r),
    {
        along_axis(input, self.dim(), backend, host)
    }
}

/// Logarithms of [`Softmax`].
#[derive(Debug, Clone, Copy)]
pub struct LogSoftmax {
    dim: usize,
}

impl View for LogSoftmax {
    type V = usize;

    closed spec fn view(&self) -> usize {
        self.dim
    }
}

impl LogSoftmax {
    pub fn new(dim: usize) -> (r: LogSoftmax)
        ensures
            r@ == dim,
    {
        LogSoftmax { dim }
    }

    /// The axis.
    pub fn dim(&self) -> (r: usize)
        ensures
            r == self@,
    {
        self.dim
    }

    pub fn forward_host<
        S,
        B: FnOnce(&Tensor<S>, usize) -> Result<Tensor<S>, BackendError>,
        H: FnOnce(&Tensor<S>, usize) -> Tensor<S>,
    >(&self, input: &Tensor<S>, backend: B, host: H) -> (r: Result<Tensor<S>, AutodiffError>)
        requires
            call_requires(backend, (input, self@)),
            call_requires(host, (input, self@)),
        ensures
            along_axis_outcome(input, self@, backend, host, r),
    {
        along_axis(input, self.dim(), backend, host)
    }
}

impl<S: Copy> Module<S> for Softmax {
    open spec fn parameters(&self) -> Map<Seq<char>, TensorModel<S>> {
        Map::empty()
    }

    open spec fn accepts(&self, name: Seq<char>, shape: Seq<usize>) -> bool {
        false
    }

    open spec fn may_refuse(
        &self,
        name: Seq<char>,
        value: TensorModel<S>,
        error: ErrorModel,
    ) -> bool {
        error == unknown_parameter(name)
    }

    open spec fn reliable(&self) -> bool {
        true
    }

    open spec fn refusal(&self, name: Seq<char>, shape: Seq<usize>) -> ErrorModel {
        unknown_parameter(name)
    }

    open spec fn steady(&self) -> bool {
        true
    }

    open spec fn recorded(&self) -> bool {
        false
    }

    fn named_parameters(&self) -> (r: Vec<(String, &Tensor<S>)>) {
        no_parameters()
    }

    fn set_parameter(&mut self, name: &str, _value: Tensor<S>) -> (r: Result<(), AutodiffError>)
        ensures
            r matches Err(e) && e@ == unknown_parameter(name@),
            *final(self) == *old(self),
    {
        Err(refuse_parameter(name))
    }
}

impl<S: Copy> Module<S> for LogSoftmax {
    open spec fn parameters(&self) -> Map<Seq<char>, TensorModel<S>> {
        Map::empty()
    }

    open spec fn accepts(&self, name: Seq<char>, shape: Seq<usize>) -> bool {
        false
    }

    open spec fn may_refuse(
        &self,
        name: Seq<char>,
        value: TensorModel<S>,
        error: ErrorModel,
    ) -> bool {
        error == unknown_parameter(name)
    }

    open spec fn reliable(&self) -> bool {
        true
    }

    open spec fn refusal(&self, name: Seq<char>, shape: Seq<usize>) -> ErrorModel {
        unknown_parameter(name)
    }

    open spec fn steady(&self) -> bool {
        true
    }

    open spec fn recorded(&self) -> bool {
        false
    }

    fn named_parameters(&self) -> (r: Vec<(String, &Tensor<S>)>) {
        no_parameters()
    }

    fn set_parameter(&mut self, name: &str, _value: Tensor<S>) -> (r: Result<(), AutodiffError>)
        ensures
            r matches Err(e) && e@ == unknown_parameter(name@),
            *final(self) == *old(self),
    {
        Err(refuse_parameter(name))
    }
}

} // verus!
