//! Batch normalization without a record of the computation.
use crate::error::{AutodiffError, ErrorModel, ShapeError, rank_mismatch};
use crate::tensor::{Tensor, same_shape, shape_mismatch};
use crate::text::{followed_by, followed_by_count, numeral};
use vstd::prelude::*;

verus! {

/// What a batch normalization layer computes.
#[derive(Debug, Clone, Copy, PartialEq, Eq, Structural)]
pub enum BatchNormMode {
    /// Normalizes with the statistics of the batch, which are taken over
    /// `per_channel` elements, and updates the running statistics.
    Train { per_channel: usize },
    /// Normalizes with the running statistics.
    Infer,
}

/// Why an input with the given number of axes is refused, if it is.
pub open spec fn rank_error(ranks: Seq<usize>, rank: usize) -> Option<ErrorModel> {
    if ranks.contains(rank) {
        None
    } else {
        Some(ErrorModel::RankMismatch { expected: ranks[0], actual: rank })
    }
}

/// Refuses an input whose number of axes is not one of the given ones.
pub fn check_rank(ranks: &[usize], rank: usize) -> (r: Result<(), AutodiffError>)
    requires
        ranks@.len() > 0,
    ensures
        match r {
            Ok(_) => rank_error(ranks@, rank) is None,
            Err(e) => rank_error(ranks@, rank) == Some(e@),
        },
{
    let mut i: usize = 0;
    while i < ranks.len()
        invariant
            i <= ranks@.len(),
            forall|k: int| 0 <= k < i ==> #[trigger] ranks@[k] != rank,
        decreases ranks@.len() - i,
    {
        if ranks[i] == rank {
            assert(ranks@.contains(rank));
            return Ok(());
        }
        i = i + 1;
    }
    Err(rank_mismatch(ranks[0], rank))
}

/// The error of a shape that is not that of one value for each channel.
pub open spec fn channel_error(shape: Seq<usize>, channels: usize) -> Option<ErrorModel> {
    if shape == seq![channels] {
        None
    } else {
        Some(ErrorModel::ShapeMismatch { lhs: shape, rhs: seq![channels] })
    }
}

/// The contents of a shape that may be missing.
pub open spec fn optional_shape(shape: Option<&[usize]>) -> Option<Seq<usize>> {
    match shape {
        Some(s) => Some(s@),
        None => None,
    }
}

/// The error of a batch with `n` images of `spatial` elements in each channel, which
/// are too few to train with.
pub open spec fn batch_too_small(n: nat, spatial: nat) -> ErrorModel {
    ErrorModel::InvalidArgument(
        "BatchNorm::forward_host: train モードはチャネルごとの要素数 M=n*spatial が 1 以下を許容しない（got n="@
            + numeral(n) + ", spatial="@ + numeral(spatial) + ", M="@ + numeral(n * spatial)
            + "）"@,
    )
}

fn refuse_batch(n: usize, spatial: usize, per_channel: usize) -> (r: AutodiffError)
    requires
        per_channel == n * spatial,
    ensures
        r@ == batch_too_small(n as nat, spatial as nat),
{
    let text: String = followed_by_count(
        "BatchNorm::forward_host: train モードはチャネルごとの要素数 M=n*spatial が 1 以下を許容しない（got n=".to_owned(),
        n,
    );
    let text: String = followed_by_count(followed_by(text, ", spatial="), spatial);
    let text: String = followed_by_count(followed_by(text, ", M="), per_channel);
    AutodiffError::InvalidArgument(followed_by(text, "）"))
}

/// What is computed for an input with `n` images and `spatial` elements in each of
/// its `c` channels, or why the input is refused.
pub open spec fn planned(
    layout: Result<(usize, usize, usize), ShapeError>,
    num_features: usize,
    weight: Option<Seq<usize>>,
    bias: Option<Seq<usize>>,
    training: bool,
) -> Result<BatchNormMode, ErrorModel> {
    match layout {
        Err(e) => Err(e@),
        Ok((n, c, spatial)) => if channel_error(seq![c], num_features) is Some {
            Err(channel_error(seq![c], num_features)->0)
        } else if weight is Some && channel_error(weight->0, c) is Some {
            Err(channel_error(weight->0, c)->0)
        } else if bias is Some && channel_error(bias->0, c) is Some {
            Err(channel_error(bias->0, c)->0)
        } else if !training {
            Ok(BatchNormMode::Infer)
        } else if n * spatial > usize::MAX {
            Err(ErrorModel::ElementCountOverflow)
        } else if n * spatial <= 1 {
            Err(batch_too_small(n as nat, spatial as nat))
        } else {
            Ok(BatchNormMode::Train { per_channel: (n * spatial) as usize })
        },
    }
}

fn check_channel(shape: &[usize], channels: usize) -> (r: Result<(), AutodiffError>)
    ensures
        match r {
            Ok(_) => channel_error(shape@, channels) is None,
            Err(e) => channel_error(shape@, channels) == Some(e@),
        },
{
    let expected: [usize; 1] = [channels];
    assert(expected@ =~= seq![channels]);
    if same_shape(shape, &expected) {
        Ok(())
    } else {
        Err(shape_mismatch(shape, &expected))
    }
}

/// Decides what a batch normalization layer computes for an input of the given
/// layout.
pub fn batch_norm_plan(
    layout: Result<(usize, usize, usize), ShapeError>,
    num_features: usize,
    weight: Option<&[usize]>,
    bias: Option<&[usize]>,
    training: bool,
) -> (r: Result<BatchNormMode, AutodiffError>)
    ensures
        match r {
            Ok(mode) => planned(
                layout,
                num_features,
                optional_shape(weight),
                optional_shape(bias),
                training,
            ) == Ok::<_, ErrorModel>(mode),
            Err(e) => planned(
                layout,
                num_features,
                optional_shape(weight),
                optional_shape(bias),
                training,
            ) == Err::<BatchNormMode, _>(e@),
        },
{
    let (n, c, spatial): (usize, usize, usize) = match layout {
        Err(e) => {
            return Err(AutodiffError::Shape(e));
        },
        Ok((n, c, spatial)) => (n, c, spatial),
    };
    let channels: [usize; 1] = [c];
    assert(channels@ =~= seq![c]);
    match check_channel(&channels, num_features) {
        Err(e) => {
            return Err(e);
        },
        Ok(_) => {},
    }
    if let Some(shape) = weight {
        match check_channel(shape, c) {
            Err(e) => {
                return Err(e);
            },
            Ok(_) => {},
        }
    }
    if let Some(shape) = bias {
        match check_channel(shape, c) {
            Err(e) => {
                return Err(e);
            },
            Ok(_) => {},
        }
    }
    if !training {
        return Ok(BatchNormMode::Infer);
    }
    match n.checked_mul(spatial) {
        None => Err(AutodiffError::Shape(ShapeError::ElementCountOverflow)),
        Some(per_channel) => if per_channel <= 1 {
            Err(refuse_batch(n, spatial, per_channel))
        } else {
            Ok(BatchNormMode::Train { per_channel })
        },
    }
}

/// What normalization with the statistics of a batch gives.
pub struct BatchNormTrained<S> {
    pub output: Tensor<S>,
    /// The mean of each channel.
    pub batch_mean: Vec<S>,
    /// The variance of each channel.
    pub batch_var: Vec<S>,
}

/// Statistics that the running ones are to be updated with.
pub struct BatchStatistics<S> {
    pub mean: Vec<S>,
    pub var: Vec<S>,
    /// The number of elements of each channel that the statistics are taken over.
    pub per_channel: usize,
}

/// What a batch normalization layer gives for an input.
pub struct BatchNormOutput<S> {
    pub output: Tensor<S>,
    /// What the running statistics are to be updated with, which is only the case in
    /// training.
    pub update: Option<BatchStatistics<S>>,
}

/// The shape of a parameter that may be missing.
pub open spec fn parameter_shape<S>(parameter: Option<&Tensor<S>>) -> Option<Seq<usize>> {
    match parameter {
        Some(tensor) => Some(tensor@.shape),
        None => None,
    }
}

fn shape_of_parameter<'a, S>(parameter: Option<&'a Tensor<S>>) -> (r: Option<&'a [usize]>)
    ensures
        optional_shape(r) == parameter_shape(parameter),
{
    match parameter {
        Some(tensor) => Some(tensor.shape()),
        None => None,
    }
}

/// Whether a result in training is what normalization with the statistics of the
/// batch has given.
pub open spec fn trained<S>(
    r: Result<BatchNormOutput<S>, AutodiffError>,
    reply: Result<BatchNormTrained<S>, AutodiffError>,
    per_channel: usize,
) -> bool {
    match reply {
        Err(e) => r matches Err(f) && f@ == e@,
        Ok(value) => {
            &&& r matches Ok(out)
            &&& out.output@ == value.output@
            &&& out.update matches Some(update)
            &&& update.mean@ == value.batch_mean@
            &&& update.var@ == value.batch_var@
            &&& update.per_channel == per_channel
        },
    }
}

/// Whether a result outside training is what normalization with the running
/// statistics has given.
pub open spec fn inferred<S>(
    r: Result<BatchNormOutput<S>, AutodiffError>,
    reply: Result<Tensor<S>, AutodiffError>,
) -> bool {
    match reply {
        Err(e) => r matches Err(f) && f@ == e@,
        Ok(value) => r matches Ok(out) && out.output@ == value@ && out.update is None,
    }
}

/// Normalizes an input whose layout is `n` images of `c` channels with `spatial`
/// elements each. `train` normalizes with the statistics of the batch, `infer` with
/// the running ones: each is given the input, the weight, the bias, `eps` and the
/// layout. Neither is called for an input that is refused.
pub fn batch_norm_forward_host<
    S: Copy,
    T: FnOnce(
        &Tensor<S>,
        Option<&Tensor<S>>,
        Option<&Tensor<S>>,
        S,
        (usize, usize, usize),
    ) -> Result<BatchNormTrained<S>, AutodiffError>,
    I: FnOnce(
        &Tensor<S>,
        Option<&Tensor<S>>,
        Option<&Tensor<S>>,
        S,
        (usize, usize, usize),
    ) -> Result<Tensor<S>, AutodiffError>,
>(
    input: &Tensor<S>,
    layout: Result<(usize, usize, usize), ShapeError>,
    num_features: usize,
    weight: Option<&Tensor<S>>,
    bias: Option<&Tensor<S>>,
    eps: S,
    training: bool,
    train: T,
    infer: I,
) -> (r: Result<BatchNormOutput<S>, AutodiffError>)
    requires
        layout matches Ok(parts) ==> call_requires(train, (input, weight, bias, eps, parts)),
        layout matches Ok(parts) ==> call_requires(infer, (input, weight, bias, eps, parts)),
    ensures
        match planned(
            layout,
            num_features,
            parameter_shape(weight),
            parameter_shape(bias),
            training,
        ) {
            Err(e) => r matches Err(f) && f@ == e,
            Ok(BatchNormMode::Train { per_channel }) => exists|
                reply: Result<BatchNormTrained<S>, AutodiffError>,
            | #[trigger]
                call_ensures(train, (input, weight, bias, eps, layout->Ok_0), reply) && trained(
                    r,
                    reply,
                    per_channel,
                ),
            Ok(BatchNormMode::Infer) => exists|reply: Result<Tensor<S>, AutodiffError>| #[trigger]
                call_ensures(infer, (input, weight, bias, eps, layout->Ok_0), reply) && inferred(
                    r,
                    reply,
                ),
        },
{
    let parts: (usize, usize, usize) = match layout {
        Err(e) => {
            return Err(AutodiffError::Shape(e));
        },
        Ok(parts) => parts,
    };
    let mode: BatchNormMode = match batch_norm_plan(
        Ok(parts),
        num_features,
        shape_of_parameter(weight),
        shape_of_parameter(bias),
        training,
    ) {
        Err(e) => {
            return Err(e);
        },
        Ok(mode) => mode,
    };
    match mode {
        BatchNormMode::Train { per_channel } => {
            let reply: Result<BatchNormTrained<S>, AutodiffError> = train(
                input,
                weight,
                bias,
                eps,
                parts,
            );
            let ghost replied = reply;
            let r: Result<BatchNormOutput<S>, AutodiffError> = match reply {
                Err(e) => Err(e),
                Ok(value) => Ok(
                    BatchNormOutput {
                        output: value.output,
                        update: Some(
                            BatchStatistics {
                                mean: value.batch_mean,
                                var: value.batch_var,
                                per_channel,
                            },
                        ),
                    },
                ),
            };
            assert(trained(r, replied, per_channel));
            r
        },
        BatchNormMode::Infer => {
            let reply: Result<Tensor<S>, AutodiffError> = infer(input, weight, bias, eps, parts);
            let ghost replied = reply;
            let r: Result<BatchNormOutput<S>, AutodiffError> = match reply {
                Err(e) => Err(e),
                Ok(output) => Ok(BatchNormOutput { output, update: None }),
            };
            assert(inferred(r, replied));
            r
        },
    }
}

/// Training goes by all elements of a channel, of which there must be at least two. Without
/// training the size of the batch makes no difference. Either way the input has the number
/// of channels that the layer is made for, and so have the weight and the bias.
pub proof fn training_needs_two_elements(
    n: usize,
    c: usize,
    spatial: usize,
    num_features: usize,
    weight: Option<Seq<usize>>,
    bias: Option<Seq<usize>>,
    training: bool,
)
    ensures
        ({
            let fits = c == num_features && (weight matches Some(w) ==> w == seq![c]) && (
            bias matches Some(b) ==> b == seq![c]);
            let plan = planned(Ok((n, c, spatial)), num_features, weight, bias, training);
            &&& !fits ==> plan is Err
            &&& fits && !training ==> plan == Ok::<_, ErrorModel>(BatchNormMode::Infer)
            &&& fits && training ==> match plan {
                Ok(BatchNormMode::Train { per_channel }) => {
                    &&& per_channel == n * spatial
                    &&& per_channel >= 2
                },
                Ok(BatchNormMode::Infer) => false,
                Err(_) => n * spatial <= 1 || n * spatial > usize::MAX,
            }
        }),
{
    assert(seq![c] == seq![num_features] ==> c == num_features) by {
        assert(seq![c][0] == c && seq![num_features][0] == num_features);
    }
}

} // verus!
