//! Errors that the crate's functions return.
use crate::number::Real;
use crate::text::{
    bracketed, bracketed_text, followed_by, followed_by_count, joined, numeral, numeral_text,
};
use vstd::prelude::*;

verus! {

/// A shape that an operation cannot take.
#[derive(Debug)]
pub enum ShapeError {
    /// The number of dimensions is not the expected one.
    RankMismatch { expected: usize, actual: usize },
    /// Two shapes that have to agree do not.
    ShapeMismatch { lhs: Vec<usize>, rhs: Vec<usize> },
    /// The number of elements is not the one that the shape asks for.
    ElementCountMismatch { expected: usize, actual: usize },
    /// The number of elements does not fit in `usize`.
    ElementCountOverflow,
    /// The axis is not one of the tensor's.
    AxisOutOfRange { axis: usize, rank: usize },
}

/// A failure that a compute backend reports.
#[derive(Debug)]
pub enum BackendError {
    /// The backend does not offer the operation.
    Unsupported(String),
    /// The backend's result has the wrong shape.
    ShapeMismatch(ShapeError),
    /// Any other failure.
    Failed(String),
}

/// The error type of this crate.
#[derive(Debug)]
pub enum AutodiffError {
    /// An argument that no computation can start from, with the reason.
    InvalidArgument(String),
    Shape(ShapeError),
    /// Differentiation failed.
    Backward(String),
    Backend(BackendError),
}

/// What an [`AutodiffError`] says, as a mathematical value.
#[verifier::ext_equal]
pub enum ErrorModel {
    InvalidArgument(Seq<char>),
    RankMismatch { expected: usize, actual: usize },
    ShapeMismatch { lhs: Seq<usize>, rhs: Seq<usize> },
    ElementCountMismatch { expected: usize, actual: usize },
    ElementCountOverflow,
    AxisOutOfRange { axis: usize, rank: usize },
    Backward(Seq<char>),
    BackendUnsupported(Seq<char>),
    BackendShapeMismatch(Box<ErrorModel>),
    BackendFailed(Seq<char>),
}

impl View for ShapeError {
    type V = ErrorModel;

    open spec fn view(&self) -> ErrorModel {
        match *self {
            ShapeError::RankMismatch { expected, actual } => ErrorModel::RankMismatch {
                expected,
                actual,
            },
            ShapeError::ShapeMismatch { lhs, rhs } => ErrorModel::ShapeMismatch {
                lhs: lhs@,
                rhs: rhs@,
            },
            ShapeError::ElementCountMismatch { expected, actual } =>
                ErrorModel::ElementCountMismatch { expected, actual },
            ShapeError::ElementCountOverflow => ErrorModel::ElementCountOverflow,
            ShapeError::AxisOutOfRange { axis, rank } => ErrorModel::AxisOutOfRange { axis, rank },
        }
    }
}

impl View for BackendError {
    type V = ErrorModel;

    open spec fn view(&self) -> ErrorModel {
        match *self {
            BackendError::Unsupported(reason) => ErrorModel::BackendUnsupported(reason@),
            BackendError::ShapeMismatch(e) => ErrorModel::BackendShapeMismatch(Box::new(e@)),
            BackendError::Failed(reason) => ErrorModel::BackendFailed(reason@),
        }
    }
}

impl View for AutodiffError {
    type V = ErrorModel;

    open spec fn view(&self) -> ErrorModel {
        match *self {
            AutodiffError::InvalidArgument(reason) => ErrorModel::InvalidArgument(reason@),
            AutodiffError::Shape(e) => e@,
            AutodiffError::Backward(reason) => ErrorModel::Backward(reason@),
            AutodiffError::Backend(e) => e@,
        }
    }
}

/// An error in words.
pub open spec fn described(error: ErrorModel) -> Seq<char>
    decreases error,
{
    match error {
        ErrorModel::InvalidArgument(reason) => "invalid argument: "@ + reason,
        ErrorModel::RankMismatch { expected, actual } => "rank mismatch: expected "@ + numeral(
            expected as nat,
        ) + ", got "@ + numeral(actual as nat),
        ErrorModel::ShapeMismatch { lhs, rhs } => "shape mismatch: "@ + bracketed(lhs) + " and "@
            + bracketed(rhs),
        ErrorModel::ElementCountMismatch { expected, actual } =>
            "element count mismatch: expected "@ + numeral(expected as nat) + ", got "@ + numeral(
            actual as nat,
        ),
        ErrorModel::ElementCountOverflow => "element count overflow"@,
        ErrorModel::AxisOutOfRange { axis, rank } => "axis "@ + numeral(axis as nat)
            + " is out of range for rank "@ + numeral(rank as nat),
        ErrorModel::Backward(reason) => "backward failed: "@ + reason,
        ErrorModel::BackendUnsupported(reason) => "unsupported by the backend: "@ + reason,
        ErrorModel::BackendShapeMismatch(e) => "backend: "@ + described(*e),
        ErrorModel::BackendFailed(reason) => "backend failed: "@ + reason,
    }
}

fn describe_counts(front: &str, first: usize, between: &str, second: usize) -> (r: String)
    ensures
        r@ == front@ + numeral(first as nat) + between@ + numeral(second as nat),
{
    let text: String = joined(front, numeral_text(first).as_str());
    followed_by_count(followed_by(text, between), second)
}

impl ShapeError {
    /// The error in words.
    pub fn describe(&self) -> (r: String)
        ensures
            r@ == described(self@),
    {
        match self {
            ShapeError::RankMismatch { expected, actual } => describe_counts(
                "rank mismatch: expected ",
                *expected,
                ", got ",
                *actual,
            ),
            ShapeError::ShapeMismatch { lhs, rhs } => {
                let text: String = joined("shape mismatch: ", bracketed_text(lhs).as_str());
                followed_by(followed_by(text, " and "), bracketed_text(rhs).as_str())
            },
            ShapeError::ElementCountMismatch { expected, actual } => describe_counts(
                "element count mismatch: expected ",
                *expected,
                ", got ",
                *actual,
            ),
            ShapeError::ElementCountOverflow => "element count overflow".to_owned(),
            ShapeError::AxisOutOfRange { axis, rank } => describe_counts(
                "axis ",
                *axis,
                " is out of range for rank ",
                *rank,
            ),
        }
    }
}

impl AutodiffError {
    /// The error in words.
    pub fn describe(&self) -> (r: String)
        ensures
            r@ == described(self@),
    {
        match self {
            AutodiffError::InvalidArgument(reason) => joined("invalid argument: ", reason.as_str()),
            AutodiffError::Shape(e) => e.describe(),
            AutodiffError::Backward(reason) => joined("backward failed: ", reason.as_str()),
            AutodiffError::Backend(BackendError::Unsupported(reason)) => joined(
                "unsupported by the backend: ",
                reason.as_str(),
            ),
            AutodiffError::Backend(BackendError::ShapeMismatch(e)) => joined(
                "backend: ",
                e.describe().as_str(),
            ),
            AutodiffError::Backend(BackendError::Failed(reason)) => joined(
                "backend failed: ",
                reason.as_str(),
            ),
        }
    }
}

/// The error of an argument that is refused for `reason`.
pub open spec fn refused(reason: &str) -> ErrorModel {
    ErrorModel::InvalidArgument(reason@)
}

pub(crate) fn invalid(reason: &str) -> (r: AutodiffError)
    ensures
        r@ == refused(reason),
{
    AutodiffError::InvalidArgument(reason.to_owned())
}

/// The error of an argument that is refused for a reason that ends with a number.
pub open spec fn told<R: Real>(reason: &str, number: R) -> ErrorModel {
    ErrorModel::InvalidArgument(reason@ + number.shown())
}

pub(crate) fn tell<R: Real>(reason: &str, number: R) -> (r: AutodiffError)
    ensures
        r@ == told(reason, number),
{
    AutodiffError::InvalidArgument(joined(reason, number.show().as_str()))
}

/// The error of arguments that are refused for a reason with two numbers in it.
pub open spec fn told_two<Q: Real, R: Real>(
    reason: &str,
    first: Q,
    between: &str,
    second: R,
    rest: &str,
) -> ErrorModel {
    ErrorModel::InvalidArgument(
        reason@ + first.shown() + between@ + second.shown() + rest@,
    )
}

pub(crate) fn tell_two<Q: Real, R: Real>(
    reason: &str,
    first: Q,
    between: &str,
    second: R,
    rest: &str,
) -> (r: AutodiffError)
    ensures
        r@ == told_two(reason, first, between, second, rest),
{
    let text: String = followed_by(joined(reason, first.show().as_str()), between);
    let text: String = followed_by(followed_by(text, second.show().as_str()), rest);
    AutodiffError::InvalidArgument(text)
}

/// The error of arguments that are refused for a reason with two counts in it.
pub open spec fn told_counts(
    reason: &str,
    first: nat,
    between: &str,
    second: nat,
    rest: &str,
) -> ErrorModel {
    ErrorModel::InvalidArgument(
        reason@ + numeral(first) + between@ + numeral(second) + rest@,
    )
}

pub(crate) fn tell_counts(
    reason: &str,
    first: usize,
    between: &str,
    second: usize,
    rest: &str,
) -> (r: AutodiffError)
    ensures
        r@ == told_counts(reason, first as nat, between, second as nat, rest),
{
    let text: String = followed_by(joined(reason, numeral_text(first).as_str()), between);
    let text: String = followed_by(followed_by_count(text, second), rest);
    AutodiffError::InvalidArgument(text)
}

/// The error of an argument that is refused for a reason that ends with a count.
pub open spec fn told_count(reason: &str, count: nat) -> ErrorModel {
    ErrorModel::InvalidArgument(reason@ + numeral(count))
}

pub(crate) fn tell_count(reason: &str, count: usize) -> (r: AutodiffError)
    ensures
        r@ == told_count(reason, count as nat),
{
    AutodiffError::InvalidArgument(joined(reason, numeral_text(count).as_str()))
}

pub(crate) fn rank_mismatch(expected: usize, actual: usize) -> (r: AutodiffError)
    ensures
        r@ == (ErrorModel::RankMismatch { expected, actual }),
{
    AutodiffError::Shape(ShapeError::RankMismatch { expected, actual })
}

} // verus!
