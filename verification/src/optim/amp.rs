//! Scaling of losses and gradients for computations in a narrow precision.
//!
//! A loss is multiplied by a scale before gradients are computed, and the
//! gradients are divided by it again before a step is taken. A step whose
//! gradients are then not finite is skipped, and the scale is lowered.
use crate::error::{AutodiffError, ErrorModel, invalid, refused, tell, told};
use crate::number::{Real, Single, is_number, is_positive, one, positive, zero};
use crate::optim::slots::models;
use crate::tensor::{Tensor, TensorModel, with_shape};
use crate::text::{followed_by, joined};
use crate::optim::direction::{against, sided, sided_product, sided_quotient, zero_is_zero};
use vstd::prelude::*;

verus! {

/// The error of a scale that `caller` refuses.
pub open spec fn scale_refused<S: Single>(caller: &str, scale: S) -> ErrorModel {
    ErrorModel::InvalidArgument(
        caller@ + ": scale must be finite and > 0.0, got "@ + scale.shown(),
    )
}

/// Refuses a scale that is not finite and positive.
fn validate_scale<S: Single>(scale: S, caller: &str) -> (r: Result<(), AutodiffError>)
    ensures
        r is Ok <==> positive(scale),
        r is Err ==> r->Err_0@ == scale_refused(caller, scale),
{
    if !is_positive(scale) {
        let text: String = joined(caller, ": scale must be finite and > 0.0, got ");
        return Err(AutodiffError::InvalidArgument(followed_by(text, scale.show().as_str())));
    }
    Ok(())
}

/// The contents of tensors that are given by reference.
pub open spec fn referred<'a, S>(tensors: Seq<&'a Tensor<S>>) -> Seq<TensorModel<S>> {
    tensors.map_values(|t: &'a Tensor<S>| t@)
}

/// A tensor with every element multiplied by `scale`.
pub open spec fn scaled_tensor<S: Real>(tensor: TensorModel<S>, scale: S) -> TensorModel<S> {
    TensorModel { shape: tensor.shape, data: tensor.data.map_values(|v: S| v.times(scale)) }
}

/// A tensor with every element divided by `scale`.
pub open spec fn unscaled_tensor<S: Real>(tensor: TensorModel<S>, scale: S) -> TensorModel<S> {
    TensorModel { shape: tensor.shape, data: tensor.data.map_values(|v: S| v.over(scale)) }
}

/// Whether all elements of a tensor are finite.
pub open spec fn is_finite_tensor<S: Real>(tensor: TensorModel<S>) -> bool {
    forall|k: int| 0 <= k < tensor.data.len() ==> (#[trigger] tensor.data[k]).finite()
}

/// Whether all elements of all tensors are finite.
pub open spec fn all_finite<S: Real>(tensors: Seq<TensorModel<S>>) -> bool {
    forall|i: int| 0 <= i < tensors.len() ==> #[trigger] is_finite_tensor(tensors[i])
}

/// Multiplies a loss by a scale.
pub fn scale_loss<S: Single>(loss: &Tensor<S>, scale: S) -> (r: Result<Tensor<S>, AutodiffError>)
    ensures
        match r {
            Ok(scaled) => positive(scale) && scaled@ == scaled_tensor(loss@, scale),
            Err(e) => !positive(scale) && e@ == scale_refused("scale_loss", scale),
        },
{
    match validate_scale(scale, "scale_loss") {
        Err(e) => Err(e),
        Ok(_) => Ok(scale_tensor(loss, scale)),
    }
}

fn scale_tensor<S: Single>(tensor: &Tensor<S>, scale: S) -> (r: Tensor<S>)
    ensures
        r@ == scaled_tensor(tensor@, scale),
{
    let data: &[S] = tensor.as_slice();
    let mut out: Vec<S> = Vec::new();
    let mut k: usize = 0;
    while k < data.len()
        invariant
            k <= data@.len(),
            out@.len() == k,
            forall|i: int| 0 <= i < k ==> #[trigger] out@[i] == data@[i].times(scale),
        decreases data@.len() - k,
    {
        out.push(data[k].mul(scale));
        k = k + 1;
    }
    let r: Tensor<S> = with_shape(tensor.shape(), out);
    assert(r@ =~= scaled_tensor(tensor@, scale));
    r
}

/// Multiplies gradients by a scale.
pub fn scale_grads<S: Single>(tensors: &[&Tensor<S>], scale: S) -> (r: Result<
    Vec<Tensor<S>>,
    AutodiffError,
>)
    ensures
        match r {
            Ok(scaled) => positive(scale) && models(scaled@) == referred(tensors@).map_values(
                |t: TensorModel<S>| scaled_tensor(t, scale),
            ),
            Err(e) => !positive(scale) && e@ == scale_refused("scale_grads", scale),
        },
{
    match validate_scale(scale, "scale_grads") {
        Err(e) => {
            return Err(e);
        },
        Ok(_) => {},
    }
    let mut out: Vec<Tensor<S>> = Vec::new();
    let mut i: usize = 0;
    while i < tensors.len()
        invariant
            i <= tensors@.len(),
            out@.len() == i,
            forall|k: int|
                0 <= k < i ==> (#[trigger] out@[k])@ == scaled_tensor(tensors@[k]@, scale),
        decreases tensors@.len() - i,
    {
        out.push(scale_tensor(tensors[i], scale));
        i = i + 1;
    }
    assert(models(out@) =~= referred(tensors@).map_values(
        |t: TensorModel<S>| scaled_tensor(t, scale),
    ));
    Ok(out)
}

/// Gradients that have been divided by the scale.
pub struct UnscaleResult<S> {
    pub grads: Vec<Tensor<S>>,
    /// Whether one of the gradients has an element that is not finite.
    pub found_non_finite: bool,
}

impl<S> UnscaleResult<S> {
    /// Whether the step, and the clipping before it, are to be skipped.
    pub fn should_skip_step(&self) -> (r: bool)
        ensures
            r == self.found_non_finite,
    {
        self.found_non_finite
    }
}

/// Divides gradients by a scale. Elements that are not finite are reported, not
/// refused.
pub fn unscale_grads<S: Single>(grads: &[&Tensor<S>], scale: S) -> (r: Result<
    UnscaleResult<S>,
    AutodiffError,
>)
    ensures
        match r {
            Ok(unscaled) => {
                &&& positive(scale)
                &&& models(unscaled.grads@) == referred(grads@).map_values(
                    |t: TensorModel<S>| unscaled_tensor(t, scale),
                )
                &&& unscaled.found_non_finite == !all_finite(models(unscaled.grads@))
            },
            Err(e) => !positive(scale) && e@ == scale_refused("unscale_grads", scale),
        },
{
    match validate_scale(scale, "unscale_grads") {
        Err(e) => {
            return Err(e);
        },
        Ok(_) => {},
    }
    let mut out: Vec<Tensor<S>> = Vec::new();
    let mut found_non_finite: bool = false;
    let mut i: usize = 0;
    while i < grads.len()
        invariant
            i <= grads@.len(),
            out@.len() == i,
            forall|k: int|
                0 <= k < i ==> (#[trigger] out@[k])@ == unscaled_tensor(grads@[k]@, scale),
            found_non_finite == !all_finite(models(out@)),
        decreases grads@.len() - i,
    {
        let data: &[S] = grads[i].as_slice();
        let ghost before = models(out@);
        let ghost was_found = found_non_finite;
        let mut unscaled: Vec<S> = Vec::new();
        let mut k: usize = 0;
        while k < data.len()
            invariant
                k <= data@.len(),
                unscaled@.len() == k,
                forall|j: int| 0 <= j < k ==> #[trigger] unscaled@[j] == data@[j].over(scale),
                found_non_finite == (was_found || exists|j: int|
                    0 <= j < k && !(#[trigger] unscaled@[j]).finite()),
            decreases data@.len() - k,
        {
            let u: S = data[k].div(scale);
            let ghost sofar = unscaled@;
            unscaled.push(u);
            assert(forall|j: int| 0 <= j < k ==> unscaled@[j] == sofar[j]);
            if !u.is_finite() {
                found_non_finite = true;
                assert(!unscaled@[k as int].finite());
            }
            k = k + 1;
        }
        let tensor: Tensor<S> = with_shape(grads[i].shape(), unscaled);
        assert(tensor@ =~= unscaled_tensor(grads@[i as int]@, scale));
        out.push(tensor);
        assert(models(out@) =~= before.push(tensor@));
        assert(all_finite(models(out@)) == (all_finite(before) && is_finite_tensor(tensor@))) by {
            let after = models(out@);
            if all_finite(after) {
                assert forall|j: int| 0 <= j < before.len() implies #[trigger] is_finite_tensor(
                    before[j],
                ) by {
                    assert(is_finite_tensor(after[j]));
                }
                assert(is_finite_tensor(after[before.len() as int]));
            }
        }
        i = i + 1;
    }
    assert(models(out@) =~= referred(grads@).map_values(
        |t: TensorModel<S>| unscaled_tensor(t, scale),
    ));
    Ok(UnscaleResult { grads: out, found_non_finite })
}

/// Whether all elements of a tensor are finite and stay so when they are multiplied
/// by `scale`, and none becomes too small to be carried exactly.
pub open spec fn scales_exactly<S: Single>(tensor: TensorModel<S>, scale: S) -> bool {
    forall|k: int|
        0 <= k < tensor.data.len() ==> {
            let v = #[trigger] tensor.data[k];
            &&& v.finite()
            &&& v.times(scale).finite()
            &&& !v.times(scale).subnormal()
            &&& v.times(scale).same(zero()) ==> v.same(zero())
        }
}

/// Unscaling undoes scaling by a power of two, and finds nothing that is not
/// finite, unless an element becomes too large or too small on the way.
pub proof fn unscaling_undoes_scaling<S: Single>(tensors: Seq<TensorModel<S>>, scale: S)
    requires
        scale.binary(),
        forall|i: int| 0 <= i < tensors.len() ==> scales_exactly(#[trigger] tensors[i], scale),
    ensures
        tensors.map_values(|t: TensorModel<S>| scaled_tensor(t, scale)).map_values(
            |t: TensorModel<S>| unscaled_tensor(t, scale),
        ) == tensors,
        all_finite(tensors),
{
    let there = tensors.map_values(|t: TensorModel<S>| scaled_tensor(t, scale));
    let back = there.map_values(|t: TensorModel<S>| unscaled_tensor(t, scale));
    assert forall|i: int| 0 <= i < tensors.len() implies back[i] == #[trigger] tensors[i]
        && is_finite_tensor(tensors[i]) by {
        assert(scales_exactly(tensors[i], scale));
        assert forall|k: int| 0 <= k < tensors[i].data.len() implies back[i].data[k]
            == #[trigger] tensors[i].data[k] by {
            tensors[i].data[k].binary_scaling(scale);
        }
        assert(back[i].data =~= tensors[i].data);
    }
    assert(back =~= tensors);
}

/// Whether one of the tensors has an element that is not finite.
pub fn has_non_finite<S: Single>(tensors: &[&Tensor<S>]) -> (r: bool)
    ensures
        r == !all_finite(referred(tensors@)),
{
    let mut i: usize = 0;
    while i < tensors.len()
        invariant
            i <= tensors@.len(),
            forall|k: int| 0 <= k < i ==> is_finite_tensor((#[trigger] tensors@[k])@),
        decreases tensors@.len() - i,
    {
        let data: &[S] = tensors[i].as_slice();
        let mut k: usize = 0;
        while k < data.len()
            invariant
                i < tensors@.len(),
                data@ == tensors@[i as int]@.data,
                k <= data@.len(),
                forall|j: int| 0 <= j < k ==> (#[trigger] data@[j]).finite(),
            decreases data@.len() - k,
        {
            if !data[k].is_finite() {
                assert(!is_finite_tensor(referred(tensors@)[i as int]));
                return true;
            }
            k = k + 1;
        }
        i = i + 1;
    }
    assert forall|k: int| 0 <= k < tensors@.len() implies #[trigger] is_finite_tensor(
        referred(tensors@)[k],
    ) by {
        assert(is_finite_tensor(tensors@[k]@));
    }
    false
}

/// Hyperparameters of [`GradScaler`].
#[derive(Debug, Clone, Copy, PartialEq)]
pub struct GradScalerConfig<S> {
    pub init_scale: S,
    /// What the scale is multiplied by after enough clean steps.
    pub growth_factor: S,
    /// What the scale is multiplied by after gradients that are not finite.
    pub backoff_factor: S,
    /// How many clean steps in a row it takes for the scale to grow.
    pub growth_interval: u64,
}

impl<S: Single> Default for GradScalerConfig<S> {
    fn default() -> (r: Self)
        ensures
            r == (GradScalerConfig {
                init_scale: S::decimal(65536, 0),
                growth_factor: S::decimal(2, 0),
                backoff_factor: S::decimal(5, -1),
                growth_interval: 2000,
            }),
    {
        GradScalerConfig {
            init_scale: S::literal(65536, 0),
            growth_factor: S::literal(2, 0),
            backoff_factor: S::literal(5, -1),
            growth_interval: 2000,
        }
    }
}

/// Why hyperparameters are refused, if they are.
pub open spec fn scaler_error<S: Single>(config: GradScalerConfig<S>) -> Option<ErrorModel> {
    if !positive(config.init_scale) {
        Some(told("GradScaler::new: init_scale must be finite and > 0.0, got ", config.init_scale))
    } else if !(config.growth_factor.finite() && one::<S>().less(config.growth_factor)) {
        Some(
            told(
                "GradScaler::new: growth_factor must be finite and > 1.0, got ",
                config.growth_factor,
            ),
        )
    } else if !(positive(config.backoff_factor) && config.backoff_factor.less(one())) {
        Some(
            told(
                "GradScaler::new: backoff_factor must be finite and in (0.0, 1.0), got ",
                config.backoff_factor,
            ),
        )
    } else if config.growth_interval == 0 {
        Some(refused("GradScaler::new: growth_interval must be >= 1, got 0"))
    } else {
        None
    }
}

/// A scaler as a mathematical value.
pub struct ScalerModel<S> {
    pub config: GradScalerConfig<S>,
    pub scale: S,
    pub growth_tracker: u64,
}

impl<S: Single> ScalerModel<S> {
    /// The scaler after a step, or why it refuses to go on.
    pub open spec fn updated(self, found_non_finite: bool) -> Result<ScalerModel<S>, ErrorModel> {
        let lowered = self.scale.times(self.config.backoff_factor);
        let raised = self.scale.times(self.config.growth_factor);
        if found_non_finite {
            if !positive(lowered) || lowered.subnormal() {
                Err(told("GradScaler::update: backoff により scale が不正な値になった: ", lowered))
            } else {
                Ok(ScalerModel { scale: lowered, growth_tracker: 0, ..self })
            }
        } else if self.growth_tracker + 1 >= self.config.growth_interval {
            Ok(
                ScalerModel {
                    scale: if raised.finite() {
                        raised
                    } else {
                        self.scale
                    },
                    growth_tracker: 0,
                    ..self
                },
            )
        } else {
            Ok(ScalerModel { growth_tracker: (self.growth_tracker + 1) as u64, ..self })
        }
    }
}

/// Keeps a scale that is as large as gradients allow.
pub struct GradScaler<S: Single> {
    config: GradScalerConfig<S>,
    scale: S,
    growth_tracker: u64,
}

impl<S: Single> View for GradScaler<S> {
    type V = ScalerModel<S>;

    closed spec fn view(&self) -> ScalerModel<S> {
        ScalerModel {
            config: self.config,
            scale: self.scale,
            growth_tracker: self.growth_tracker,
        }
    }
}

impl<S: Single> GradScaler<S> {
    /// The scale has not been due for growth: fewer clean steps have been counted
    /// than growth takes.
    #[verifier::type_invariant]
    pub closed spec fn wf(&self) -> bool {
        self.growth_tracker < self.config.growth_interval
    }

    pub fn new(config: GradScalerConfig<S>) -> (r: Result<GradScaler<S>, AutodiffError>)
        ensures
            match r {
                Ok(scaler) => {
                    &&& scaler_error(config) is None
                    &&& scaler@ == (ScalerModel {
                        config,
                        scale: config.init_scale,
                        growth_tracker: 0,
                    })
                },
                Err(e) => scaler_error(config) == Some(e@),
            },
    {
        if !is_positive(config.init_scale) {
            return Err(
                tell(
                    "GradScaler::new: init_scale must be finite and > 0.0, got ",
                    config.init_scale,
                ),
            );
        }
        if !(config.growth_factor.is_finite() && S::literal(1, 0).lt(config.growth_factor)) {
            return Err(
                tell(
                    "GradScaler::new: growth_factor must be finite and > 1.0, got ",
                    config.growth_factor,
                ),
            );
        }
        if !(is_positive(config.backoff_factor) && config.backoff_factor.lt(S::literal(1, 0))) {
            return Err(
                tell(
                    "GradScaler::new: backoff_factor must be finite and in (0.0, 1.0), got ",
                    config.backoff_factor,
                ),
            );
        }
        if config.growth_interval == 0 {
            return Err(invalid("GradScaler::new: growth_interval must be >= 1, got 0"));
        }
        Ok(GradScaler { config, scale: config.init_scale, growth_tracker: 0 })
    }

    pub fn scale(&self) -> (r: S)
        ensures
            r == self@.scale,
    {
        self.scale
    }

    /// The number of clean steps since the scale last changed or was due to grow.
    pub fn growth_tracker(&self) -> (r: u64)
        ensures
            r == self@.growth_tracker,
    {
        self.growth_tracker
    }

    /// Multiplies a loss by the current scale.
    pub fn scale_loss(&self, loss: &Tensor<S>) -> (r: Result<Tensor<S>, AutodiffError>)
        ensures
            match r {
                Ok(scaled) => positive(self@.scale) && scaled@ == scaled_tensor(
                    loss@,
                    self@.scale,
                ),
                Err(e) => !positive(self@.scale) && e@ == scale_refused(
                    "scale_loss",
                    self@.scale,
                ),
            },
    {
        scale_loss(loss, self.scale)
    }

    /// Divides gradients by the current scale.
    pub fn unscale(&self, grads: &[&Tensor<S>]) -> (r: Result<UnscaleResult<S>, AutodiffError>)
        ensures
            match r {
                Ok(unscaled) => {
                    &&& positive(self@.scale)
                    &&& models(unscaled.grads@) == referred(grads@).map_values(
                        |t: TensorModel<S>| unscaled_tensor(t, self@.scale),
                    )
                    &&& unscaled.found_non_finite == !all_finite(models(unscaled.grads@))
                },
                Err(e) => !positive(self@.scale) && e@ == scale_refused(
                    "unscale_grads",
                    self@.scale,
                ),
            },
    {
        unscale_grads(grads, self.scale)
    }

    /// Adapts the scale to the outcome of a step: lowers it after gradients that
    /// were not finite, and raises it after enough clean steps in a row. A scale
    /// that would become infinite is kept. The scaler is left as it is where the
    /// scale has become too small.
    pub fn update(&mut self, found_non_finite: bool) -> (r: Result<(), AutodiffError>)
        ensures
            match r {
                Ok(_) => old(self)@.updated(found_non_finite) == Ok::<ScalerModel<S>, ErrorModel>(
                    final(self)@,
                ),
                Err(e) => {
                    &&& old(self)@.updated(found_non_finite) == Err::<ScalerModel<S>, _>(e@)
                    &&& final(self)@ == old(self)@
                },
            },
    {
        proof {
            use_type_invariant(&*self);
        }
        if found_non_finite {
            let next: S = self.scale.mul(self.config.backoff_factor);
            if !is_positive(next) || next.is_subnormal() {
                return Err(tell("GradScaler::update: backoff により scale が不正な値になった: ", next));
            }
            self.scale = next;
            self.growth_tracker = 0;
            return Ok(());
        }
        let counted: u64 = self.growth_tracker + 1;
        if counted >= self.config.growth_interval {
            let grown: S = self.scale.mul(self.config.growth_factor);
            if grown.is_finite() {
                self.scale = grown;
            }
            self.growth_tracker = 0;
        } else {
            self.growth_tracker = counted;
        }
        Ok(())
    }
}

/// Every scaler has counted fewer clean steps than growth takes, so the counter
/// never overflows.
pub proof fn updates_keep_the_counter_below_the_interval<S: Single>(
    state: ScalerModel<S>,
    found_non_finite: bool,
)
    requires
        state.growth_tracker < state.config.growth_interval,
        state.updated(found_non_finite) is Ok,
    ensures
        state.updated(found_non_finite)->Ok_0.growth_tracker < state.config.growth_interval,
        state.updated(found_non_finite)->Ok_0.config == state.config,
{
}

/// A gradient that is not finite lowers the scale by the backoff factor and starts the
/// count anew. Clean steps never lower it, and raise it by the growth factor when enough
/// of them have been counted.
pub proof fn scale_follows_the_gradients<S: Single>(state: ScalerModel<S>)
    requires
        scaler_error(state.config) is None,
        positive(state.scale),
    ensures
        state.updated(true) matches Ok(after) ==> {
            &&& after.scale.at_most(state.scale)
            &&& zero::<S>().less(after.scale)
            &&& after.growth_tracker == 0
            &&& state.scale == one::<S>() ==> after.scale == state.config.backoff_factor
        },
        state.updated(false) matches Ok(after) && {
            &&& state.scale.at_most(after.scale)
            &&& state.growth_tracker + 1 < state.config.growth_interval ==> after.scale
                == state.scale && after.growth_tracker == state.growth_tracker + 1
            &&& state.growth_tracker + 1 >= state.config.growth_interval ==> after.growth_tracker
                == 0
            &&& state.growth_tracker + 1 >= state.config.growth_interval && state.scale
                == one::<S>() ==> after.scale == state.config.growth_factor
        },
{
    let (scale, back, grow) = (
        state.scale,
        state.config.backoff_factor,
        state.config.growth_factor,
    );
    zero_is_zero::<S>();
    zero::<S>().order(scale, scale);
    zero::<S>().order(back, back);
    back.order(one(), one());
    one::<S>().order(grow, grow);
    scale.order(scale, scale);
    scale.signs(back);
    scale.neutral(back);
    scale.signs(grow);
    one::<S>().neutral(back);
    one::<S>().neutral(grow);
    back.neutral(one());
    grow.neutral(one());
}

/// Scaling and unscaling keep the side of every element. Scaling by one and unscaling by
/// one change nothing, and a larger scale takes an element further out.
pub proof fn scaling_keeps_the_sides<S: Real>(tensor: TensorModel<S>, scale: S, other: S, k: int)
    requires
        positive(scale),
        0 <= k < tensor.data.len(),
        is_number(scaled_tensor(tensor, scale).data[k]),
        is_number(unscaled_tensor(tensor, scale).data[k]),
    ensures
        sided(tensor.data[k], scaled_tensor(tensor, scale).data[k]),
        sided(tensor.data[k], unscaled_tensor(tensor, scale).data[k]),
        scaled_tensor(tensor, one()).data[k] == tensor.data[k],
        unscaled_tensor(tensor, one()).data[k] == tensor.data[k],
        scale.at_most(other) && is_number(scaled_tensor(tensor, other).data[k]) ==> against(
            tensor.data[k],
            scaled_tensor(tensor, other).data[k],
            scaled_tensor(tensor, scale).data[k],
        ),
        scale.at_most(other) && is_number(unscaled_tensor(tensor, other).data[k]) ==> against(
            tensor.data[k],
            unscaled_tensor(tensor, scale).data[k],
            unscaled_tensor(tensor, other).data[k],
        ),
{
    let x = tensor.data[k];
    zero::<S>().order(scale, scale);
    x.neutral(scale);
    x.neutral(other);
    x.neutral(one());
    sided_product(x, x, scale);
    sided_quotient(x, x, scale);
    scale.order(other, x);
}

} // verus!
