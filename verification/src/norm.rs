//! Normalization over the last axis.
use crate::backend::{is_unsupported, outcome, settled, with_expected_shape};
use crate::error::{AutodiffError, BackendError, ErrorModel, ShapeError, rank_mismatch};
use crate::module::{Module, lists, names};
use crate::number::{Real, is_non_negative, non_negative, one, zero};
use crate::tensor::{
    Tensor, TensorModel, count, countable, repeated, same_shape, shape_mismatch, with_shape,
};
use crate::text::{followed_by, joined, same_text};
use vstd::prelude::*;

verus! {

/// The value that [`RmsNorm`] usually adds before it takes the root.
pub fn rms_norm_default_eps<S: Real>() -> (r: S)
    ensures
        r == S::decimal(1, -6),
{
    S::literal(1, -6)
}

/// The value that [`LayerNorm`] usually adds before it takes the root.
pub fn layer_norm_default_eps<S: Real>() -> (r: S)
    ensures
        r == S::decimal(1, -5),
{
    S::literal(1, -5)
}

/// The error of a value that cannot be added before a root is taken.
pub open spec fn eps_refused<S: Real>(who: &str, eps: S) -> ErrorModel {
    ErrorModel::InvalidArgument(
        who@ + ": eps must be finite and non-negative, got "@ + eps.shown(),
    )
}

pub(crate) fn validate_eps<S: Real>(eps: S, who: &str) -> (r: Result<(), AutodiffError>)
    ensures
        match r {
            Ok(_) => non_negative(eps),
            Err(e) => !non_negative(eps) && e@ == eps_refused(who, eps),
        },
{
    if is_non_negative(eps) {
        Ok(())
    } else {
        let text: String = joined(who, ": eps must be finite and non-negative, got ");
        Err(AutodiffError::InvalidArgument(followed_by(text, eps.show().as_str())))
    }
}

/// A vector with `n` equal elements.
pub open spec fn uniform<S>(value: S, n: usize) -> TensorModel<S> {
    TensorModel { shape: seq![n], data: Seq::new(n as nat, |i: int| value) }
}

fn vector_of<S: Copy>(value: S, n: usize) -> (r: Tensor<S>)
    ensures
        r@ == uniform(value, n),
{
    let shape: [usize; 1] = [n];
    proof {
        assert(shape@.drop_last() =~= Seq::empty());
        assert(count(shape@.drop_last()) == 1);
        assert(count(shape@) == 1 * n);
        assert(countable(shape@.drop_last()));
        assert(countable(shape@));
    }
    let r: Tensor<S> = with_shape(&shape, repeated(value, n));
    assert(r@.shape =~= seq![n]);
    assert(r@.data =~= Seq::new(n as nat, |i: int| value));
    r
}

/// A parameter that may be missing, as a mathematical value.
pub open spec fn optional<S>(parameter: Option<Tensor<S>>) -> Option<TensorModel<S>> {
    match parameter {
        Some(tensor) => Some(tensor@),
        None => None,
    }
}

/// Whether a reference leads to a parameter that may be missing.
pub open spec fn refers<'a, S>(
    reference: Option<&'a Tensor<S>>,
    parameter: Option<TensorModel<S>>,
) -> bool {
    match (reference, parameter) {
        (Some(tensor), Some(model)) => tensor@ == model,
        (None, None) => true,
        _ => false,
    }
}

fn borrowed<S>(parameter: &Option<Tensor<S>>) -> (r: Option<&Tensor<S>>)
    ensures
        refers(r, optional(*parameter)),
{
    match parameter {
        Some(tensor) => Some(tensor),
        None => None,
    }
}

/// An [`RmsNorm`] layer as a mathematical value.
#[verifier::ext_equal]
pub struct RmsNormModel<S> {
    pub weight: Option<TensorModel<S>>,
    pub eps: S,
}

/// Normalization by the root of the mean square.
#[derive(Debug)]
pub struct RmsNorm<S> {
    weight: Option<Tensor<S>>,
    eps: S,
}

impl<S> View for RmsNorm<S> {
    type V = RmsNormModel<S>;

    closed spec fn view(&self) -> RmsNormModel<S> {
        RmsNormModel { weight: optional(self.weight), eps: self.eps }
    }
}

impl<S: Real> RmsNorm<S> {
    /// A layer whose weights are all one.
    pub fn new(hidden: usize, eps: S) -> (r: Result<RmsNorm<S>, AutodiffError>)
        ensures
            match r {
                Ok(layer) => {
                    &&& non_negative(eps)
                    &&& layer@ == (RmsNormModel { weight: Some(uniform(one(), hidden)), eps })
                },
                Err(e) => !non_negative(eps) && e@ == eps_refused("RmsNorm::new", eps),
            },
    {
        match validate_eps(eps, "RmsNorm::new") {
            Err(e) => Err(e),
            Ok(_) => Ok(RmsNorm { weight: Some(vector_of(S::literal(1, 0), hidden)), eps }),
        }
    }

    /// A layer without weights.
    pub fn without_affine(eps: S) -> (r: Result<RmsNorm<S>, AutodiffError>)
        ensures
            match r {
                Ok(layer) => {
                    &&& non_negative(eps)
                    &&& layer@ == (RmsNormModel { weight: None, eps })
                },
                Err(e) => !non_negative(eps) && e@ == eps_refused("RmsNorm::without_affine", eps),
            },
    {
        match validate_eps(eps, "RmsNorm::without_affine") {
            Err(e) => Err(e),
            Ok(_) => Ok(RmsNorm { weight: None, eps }),
        }
    }

    /// A layer with the given weights, which must be a vector.
    pub fn from_parameters(weight: Tensor<S>, eps: S) -> (r: Result<RmsNorm<S>, AutodiffError>)
        ensures
            match r {
                Ok(layer) => {
                    &&& non_negative(eps)
                    &&& weight@.shape.len() == 1
                    &&& layer@ == (RmsNormModel { weight: Some(weight@), eps })
                },
                Err(e) => if !non_negative(eps) {
                    e@ == eps_refused("RmsNorm::from_parameters", eps)
                } else {
                    &&& weight@.shape.len() != 1
                    &&& e@ == (ErrorModel::RankMismatch {
                        expected: 1,
                        actual: weight@.shape.len() as usize,
                    })
                },
            },
    {
        match validate_eps(eps, "RmsNorm::from_parameters") {
            Err(e) => Err(e),
            Ok(_) => if weight.rank() != 1 {
                Err(rank_mismatch(1, weight.rank()))
            } else {
                Ok(RmsNorm { weight: Some(weight), eps })
            },
        }
    }

    pub fn weight(&self) -> (r: Option<&Tensor<S>>)
        ensures
            refers(r, self@.weight),
    {
        borrowed(&self.weight)
    }

    pub fn eps(&self) -> (r: S)
        ensures
            r == self@.eps,
    {
        self.eps
    }
}

/// The parameters of a layer that has at most a weight and a bias.
pub open spec fn affine_parameters<S>(
    weight: Option<TensorModel<S>>,
    bias: Option<TensorModel<S>>,
) -> Map<Seq<char>, TensorModel<S>> {
    let weights = match weight {
        Some(w) => Map::empty().insert("weight"@, w),
        None => Map::<Seq<char>, TensorModel<S>>::empty(),
    };
    match bias {
        Some(b) => weights.insert("bias"@, b),
        None => weights,
    }
}

/// Whether a parameter can be replaced by a value of the given shape.
pub open spec fn replaceable<S>(
    parameters: Map<Seq<char>, TensorModel<S>>,
    name: Seq<char>,
    shape: Seq<usize>,
) -> bool {
    parameters.dom().contains(name) && parameters[name].shape == shape
}

/// The error of a name that no parameter has.
pub open spec fn parameter_missing(name: Seq<char>) -> ErrorModel {
    ErrorModel::InvalidArgument("set_parameter: no parameter named `"@ + name + "`"@)
}

fn refuse_missing(name: &str) -> (r: AutodiffError)
    ensures
        r@ == parameter_missing(name@),
{
    AutodiffError::InvalidArgument(
        followed_by(joined("set_parameter: no parameter named `", name), "`"),
    )
}

/// Why a parameter cannot be replaced by a value of the given shape.
pub open spec fn replacement_error<S>(
    parameters: Map<Seq<char>, TensorModel<S>>,
    name: Seq<char>,
    shape: Seq<usize>,
) -> ErrorModel {
    if parameters.dom().contains(name) {
        ErrorModel::ShapeMismatch { lhs: shape, rhs: parameters[name].shape }
    } else {
        parameter_missing(name)
    }
}

proof fn weight_is_not_bias()
    ensures
        "weight"@ != "bias"@,
{
    reveal_strlit("weight");
    reveal_strlit("bias");
    assert("weight"@.len() != "bias"@.len());
}

fn list_affine<'a, S>(
    weight: Option<&'a Tensor<S>>,
    bias: Option<&'a Tensor<S>>,
    Ghost(parameters): Ghost<Map<Seq<char>, TensorModel<S>>>,
) -> (r: Vec<(String, &'a Tensor<S>)>)
    requires
        exists|w: Option<TensorModel<S>>, b: Option<TensorModel<S>>|
            refers(weight, w) && refers(bias, b) && #[trigger] affine_parameters(w, b)
                == parameters,
    ensures
        lists(r@, parameters),
        weight is Some ==> r@[0].0@ == "weight"@,
{
    let mut out: Vec<(String, &'a Tensor<S>)> = Vec::new();
    if let Some(w) = weight {
        out.push(("weight".to_owned(), w));
    }
    if let Some(b) = bias {
        out.push(("bias".to_owned(), b));
    }
    proof {
        weight_is_not_bias();
        let all = names(out@);
        if weight is Some && bias is Some {
            assert(all =~= seq!["weight"@, "bias"@]);
            assert(all[0] == "weight"@ && all[1] == "bias"@);
        } else if weight is Some {
            assert(all =~= seq!["weight"@]);
            assert(all[0] == "weight"@);
        } else if bias is Some {
            assert(all =~= seq!["bias"@]);
            assert(all[0] == "bias"@);
        } else {
            assert(all =~= Seq::empty());
        }
        assert(all.to_set() =~= parameters.dom());
    }
    out
}

/// Replaces a parameter that is there by a value of the same shape.
fn replace<S>(slot: &mut Option<Tensor<S>>, name: &str, value: Tensor<S>) -> (r: Result<
    (),
    AutodiffError,
>)
    ensures
        match *old(slot) {
            Some(current) => if current@.shape == value@.shape {
                r is Ok && optional(*final(slot)) == Some(value@)
            } else {
                &&& r matches Err(e) && e@ == (ErrorModel::ShapeMismatch {
                    lhs: value@.shape,
                    rhs: current@.shape,
                })
                &&& *final(slot) == *old(slot)
            },
            None => {
                &&& r matches Err(e) && e@ == parameter_missing(name@)
                &&& *final(slot) == *old(slot)
            },
        },
{
    match slot {
        Some(current) => {
            if !same_shape(value.shape(), current.shape()) {
                return Err(shape_mismatch(value.shape(), current.shape()));
            }
        },
        None => {
            return Err(refuse_missing(name));
        },
    }
    *slot = Some(value);
    Ok(())
}

impl<S: Real> Module<S> for RmsNorm<S> {
    open spec fn parameters(&self) -> Map<Seq<char>, TensorModel<S>> {
        affine_parameters(self@.weight, None)
    }

    open spec fn accepts(&self, name: Seq<char>, shape: Seq<usize>) -> bool {
        replaceable(self.parameters(), name, shape)
    }

    open spec fn may_refuse(
        &self,
        name: Seq<char>,
        value: TensorModel<S>,
        error: ErrorModel,
    ) -> bool {
        &&& !replaceable(self.parameters(), name, value.shape)
        &&& error == replacement_error(self.parameters(), name, value.shape)
    }

    open spec fn reliable(&self) -> bool {
        true
    }

    open spec fn refusal(&self, name: Seq<char>, shape: Seq<usize>) -> ErrorModel {
        replacement_error(self.parameters(), name, shape)
    }

    open spec fn steady(&self) -> bool {
        true
    }

    open spec fn recorded(&self) -> bool {
        false
    }

    fn as_rms_norm(&self) -> (r: Option<&RmsNorm<S>>)
        ensures
            r == Some(self),
    {
        Some(self)
    }

    fn as_rms_norm_mut(&mut self) -> (r: Option<&mut RmsNorm<S>>)
        ensures
            r matches Some(layer) && *layer == *old(self) && *final(self) == *final(layer),
    {
        Some(self)
    }

    fn named_parameters(&self) -> (r: Vec<(String, &Tensor<S>)>) {
        let none: Option<&Tensor<S>> = None;
        assert(refers(none, None::<TensorModel<S>>));
        list_affine(self.weight(), none, Ghost(self.parameters()))
    }

    fn set_parameter(&mut self, name: &str, value: Tensor<S>) -> (r: Result<(), AutodiffError>)
        ensures
            final(self)@.eps == old(self)@.eps,
    {
        let ghost before = self.parameters();
        let ghost model = value@;
        if !same_text(name, "weight") {
            return Err(refuse_missing(name));
        }
        let r: Result<(), AutodiffError> = replace(&mut self.weight, name, value);
        proof {
            if r is Ok {
                assert(self.parameters() =~= before.insert(name@, model));
            } else {
                assert(self.parameters() =~= before);
            }
        }
        r
    }
}

/// A [`LayerNorm`] layer as a mathematical value.
#[verifier::ext_equal]
pub struct LayerNormModel<S> {
    pub weight: Option<TensorModel<S>>,
    pub bias: Option<TensorModel<S>>,
    pub eps: S,
}

/// Normalization by mean and variance.
#[derive(Debug)]
pub struct LayerNorm<S> {
    weight: Option<Tensor<S>>,
    bias: Option<Tensor<S>>,
    eps: S,
}

impl<S> View for LayerNorm<S> {
    type V = LayerNormModel<S>;

    closed spec fn view(&self) -> LayerNormModel<S> {
        LayerNormModel {
            weight: optional(self.weight),
            bias: optional(self.bias),
            eps: self.eps,
        }
    }
}

/// Why a parameter that may be missing is not a vector, if it is there and is not.
pub open spec fn vector_error<S>(parameter: Option<TensorModel<S>>) -> Option<ErrorModel> {
    match parameter {
        Some(p) => if p.shape.len() != 1 {
            Some(ErrorModel::RankMismatch { expected: 1, actual: p.shape.len() as usize })
        } else {
            None
        },
        None => None,
    }
}

fn check_vector<S>(parameter: &Option<Tensor<S>>) -> (r: Result<(), AutodiffError>)
    ensures
        match r {
            Ok(_) => vector_error(optional(*parameter)) is None,
            Err(e) => vector_error(optional(*parameter)) == Some(e@),
        },
{
    match parameter {
        Some(p) => if p.rank() != 1 {
            Err(rank_mismatch(1, p.rank()))
        } else {
            Ok(())
        },
        None => Ok(()),
    }
}

/// Why a layer cannot be made from parameters, if it cannot.
pub open spec fn layer_norm_error<S: Real>(layer: LayerNormModel<S>) -> Option<ErrorModel> {
    if !non_negative(layer.eps) {
        Some(eps_refused("LayerNorm::from_parameters", layer.eps))
    } else if vector_error(layer.weight) is Some {
        vector_error(layer.weight)
    } else if vector_error(layer.bias) is Some {
        vector_error(layer.bias)
    } else {
        match (layer.weight, layer.bias) {
            (Some(w), Some(b)) => if w.shape != b.shape {
                Some(ErrorModel::ShapeMismatch { lhs: w.shape, rhs: b.shape })
            } else {
                None
            },
            _ => None,
        }
    }
}

impl<S: Real> LayerNorm<S> {
    /// A layer whose weights are all one and whose biases are all zero.
    pub fn new(hidden: usize, eps: S) -> (r: Result<LayerNorm<S>, AutodiffError>)
        ensures
            match r {
                Ok(layer) => {
                    &&& non_negative(eps)
                    &&& layer@ == (LayerNormModel {
                        weight: Some(uniform(one(), hidden)),
                        bias: Some(uniform(zero(), hidden)),
                        eps,
                    })
                },
                Err(e) => !non_negative(eps) && e@ == eps_refused("LayerNorm::new", eps),
            },
    {
        match validate_eps(eps, "LayerNorm::new") {
            Err(e) => Err(e),
            Ok(_) => Ok(
                LayerNorm {
                    weight: Some(vector_of(S::literal(1, 0), hidden)),
                    bias: Some(vector_of(S::literal(0, 0), hidden)),
                    eps,
                },
            ),
        }
    }

    /// A layer without weights and biases.
    pub fn without_affine(eps: S) -> (r: Result<LayerNorm<S>, AutodiffError>)
        ensures
            match r {
                Ok(layer) => {
                    &&& non_negative(eps)
                    &&& layer@ == (LayerNormModel { weight: None, bias: None, eps })
                },
                Err(e) => !non_negative(eps) && e@ == eps_refused("LayerNorm::without_affine", eps),
            },
    {
        match validate_eps(eps, "LayerNorm::without_affine") {
            Err(e) => Err(e),
            Ok(_) => Ok(LayerNorm { weight: None, bias: None, eps }),
        }
    }

    /// A layer with the given weights and biases, which must be vectors of the same
    /// length where they are there.
    pub fn from_parameters(
        weight: Option<Tensor<S>>,
        bias: Option<Tensor<S>>,
        eps: S,
    ) -> (r: Result<LayerNorm<S>, AutodiffError>)
        ensures
            ({
                let model = LayerNormModel {
                    weight: optional(weight),
                    bias: optional(bias),
                    eps,
                };
                match r {
                    Ok(layer) => layer_norm_error(model) is None && layer@ == model,
                    Err(e) => layer_norm_error(model) == Some(e@),
                }
            }),
    {
        match validate_eps(eps, "LayerNorm::from_parameters") {
            Err(e) => {
                return Err(e);
            },
            Ok(_) => {},
        }
        match check_vector(&weight) {
            Err(e) => {
                return Err(e);
            },
            Ok(_) => {},
        }
        match check_vector(&bias) {
            Err(e) => {
                return Err(e);
            },
            Ok(_) => {},
        }
        if let (Some(w), Some(b)) = (&weight, &bias) {
            if !same_shape(w.shape(), b.shape()) {
                return Err(shape_mismatch(w.shape(), b.shape()));
            }
        }
        Ok(LayerNorm { weight, bias, eps })
    }

    pub fn weight(&self) -> (r: Option<&Tensor<S>>)
        ensures
            refers(r, self@.weight),
    {
        borrowed(&self.weight)
    }

    pub fn bias(&self) -> (r: Option<&Tensor<S>>)
        ensures
            refers(r, self@.bias),
    {
        borrowed(&self.bias)
    }

    pub fn eps(&self) -> (r: S)
        ensures
            r == self@.eps,
    {
        self.eps
    }
}

impl<S: Real> Module<S> for LayerNorm<S> {
    open spec fn parameters(&self) -> Map<Seq<char>, TensorModel<S>> {
        affine_parameters(self@.weight, self@.bias)
    }

    open spec fn accepts(&self, name: Seq<char>, shape: Seq<usize>) -> bool {
        replaceable(self.parameters(), name, shape)
    }

    open spec fn may_refuse(
        &self,
        name: Seq<char>,
        value: TensorModel<S>,
        error: ErrorModel,
    ) -> bool {
        &&& !replaceable(self.parameters(), name, value.shape)
        &&& error == replacement_error(self.parameters(), name, value.shape)
    }

    open spec fn reliable(&self) -> bool {
        true
    }

    open spec fn refusal(&self, name: Seq<char>, shape: Seq<usize>) -> ErrorModel {
        replacement_error(self.parameters(), name, shape)
    }

    open spec fn steady(&self) -> bool {
        true
    }

    open spec fn recorded(&self) -> bool {
        false
    }

    fn as_layer_norm(&self) -> (r: Option<&LayerNorm<S>>)
        ensures
            r == Some(self),
    {
        Some(self)
    }

    fn as_layer_norm_mut(&mut self) -> (r: Option<&mut LayerNorm<S>>)
        ensures
            r matches Some(layer) && *layer == *old(self) && *final(self) == *final(layer),
    {
        Some(self)
    }

    fn named_parameters(&self) -> (r: Vec<(String, &Tensor<S>)>)
        ensures
            self@.weight is Some ==> r@[0].0@ == "weight"@,
    {
        list_affine(self.weight(), self.bias(), Ghost(self.parameters()))
    }

    fn set_parameter(&mut self, name: &str, value: Tensor<S>) -> (r: Result<(), AutodiffError>)
        ensures
            final(self)@.eps == old(self)@.eps,
    {
        let ghost before = self.parameters();
        let ghost model = value@;
        proof {
            weight_is_not_bias();
        }
        let r: Result<(), AutodiffError> = if same_text(name, "weight") {
            replace(&mut self.weight, name, value)
        } else if same_text(name, "bias") {
            replace(&mut self.bias, name, value)
        } else {
            Err(refuse_missing(name))
        };
        proof {
            if r is Ok {
                assert(self.parameters() =~= before.insert(name@, model));
            } else {
                assert(self.parameters() =~= before);
            }
        }
        r
    }
}

/// Why a parameter does not fit rows of a given length, if it is there and does
/// not.
pub open spec fn row_error<S>(parameter: Option<TensorModel<S>>, hidden: usize) -> Option<
    ErrorModel,
> {
    match parameter {
        Some(p) => if p.shape != seq![hidden] {
            Some(ErrorModel::ShapeMismatch { lhs: p.shape, rhs: seq![hidden] })
        } else {
            None
        },
        None => None,
    }
}

fn check_row<S>(parameter: &Option<Tensor<S>>, hidden: usize) -> (r: Result<(), AutodiffError>)
    ensures
        match r {
            Ok(_) => row_error(optional(*parameter), hidden) is None,
            Err(e) => row_error(optional(*parameter), hidden) == Some(e@),
        },
{
    let row: [usize; 1] = [hidden];
    assert(row@ =~= seq![hidden]);
    match parameter {
        Some(p) => if same_shape(p.shape(), &row) {
            Ok(())
        } else {
            Err(shape_mismatch(p.shape(), &row))
        },
        None => Ok(()),
    }
}

impl<S: Real> RmsNorm<S> {
    /// Why an input with rows of the given layout is refused, if it is.
    pub open spec fn input_error(&self, layout: Result<(usize, usize), ShapeError>) -> Option<
        ErrorModel,
    > {
        match layout {
            Err(e) => Some(e@),
            Ok((_, hidden)) => row_error(self@.weight, hidden),
        }
    }

    /// Normalizes the rows of `input`, whose number and length `layout` gives, with
    /// the backend, or on the host where the backend does not offer it.
    pub fn forward_host<
        B: FnOnce(&Tensor<S>, Option<&Tensor<S>>, S) -> Result<Tensor<S>, BackendError>,
        H: FnOnce(&Tensor<S>, Option<&Tensor<S>>, S, usize, usize) -> Tensor<S>,
    >(
        &self,
        input: &Tensor<S>,
        layout: Result<(usize, usize), ShapeError>,
        backend: B,
        host: H,
    ) -> (r: Result<Tensor<S>, AutodiffError>)
        requires
            forall|w: Option<&Tensor<S>>| call_requires(backend, (input, w, self@.eps)),
            forall|w: Option<&Tensor<S>>, rows: usize, hidden: usize|
                call_requires(host, (input, w, self@.eps, rows, hidden)),
        ensures
            match self.input_error(layout) {
                Some(e) => outcome(r) == Err::<TensorModel<S>, _>(e),
                None => exists|
                    w: Option<&Tensor<S>>,
                    reply: Result<Tensor<S>, BackendError>,
                    fallback: TensorModel<S>,
                |
                    {
                        &&& refers(w, self@.weight)
                        &&& #[trigger] call_ensures(backend, (input, w, self@.eps), reply)
                        &&& is_unsupported(reply) ==> exists|value: Tensor<S>|
                            #[trigger] call_ensures(
                                host,
                                (input, w, self@.eps, layout->Ok_0.0, layout->Ok_0.1),
                                value,
                            ) && value@ == fallback
                        &&& outcome(r) == #[trigger] settled(input@.shape, reply, fallback)
                    },
            },
    {
        let (rows, hidden): (usize, usize) = match layout {
            Err(e) => {
                return Err(AutodiffError::Shape(e));
            },
            Ok((rows, hidden)) => (rows, hidden),
        };
        match check_row(&self.weight, hidden) {
            Err(e) => {
                return Err(e);
            },
            Ok(_) => {},
        }
        let w: Option<&Tensor<S>> = self.weight();
        let eps: S = self.eps();
        let reply: Result<Tensor<S>, BackendError> = backend(input, w, eps);
        let ghost replied = reply;
        let ghost mut fallback: TensorModel<S> = input@;
        let r: Result<Tensor<S>, AutodiffError> = match reply {
            Ok(value) => with_expected_shape(value, input.shape()),
            Err(BackendError::Unsupported(_)) => {
                let value: Tensor<S> = host(input, w, eps, rows, hidden);
                proof {
                    fallback = value@;
                }
                with_expected_shape(value, input.shape())
            },
            Err(e) => Err(AutodiffError::Backend(e)),
        };
        assert(outcome(r) == settled(input@.shape, replied, fallback));
        r
    }
}

impl<S: Real> LayerNorm<S> {
    /// Why an input with rows of the given layout is refused, if it is.
    pub open spec fn input_error(&self, layout: Result<(usize, usize), ShapeError>) -> Option<
        ErrorModel,
    > {
        match layout {
            Err(e) => Some(e@),
            Ok((_, hidden)) => if row_error(self@.weight, hidden) is Some {
                row_error(self@.weight, hidden)
            } else {
                row_error(self@.bias, hidden)
            },
        }
    }

    /// Normalizes the rows of `input`, whose number and length `layout` gives, with
    /// the backend, or on the host where the backend does not offer it.
    pub fn forward_host<
        B: FnOnce(&Tensor<S>, Option<&Tensor<S>>, Option<&Tensor<S>>, S) -> Result<
            Tensor<S>,
            BackendError,
        >,
        H: FnOnce(&Tensor<S>, Option<&Tensor<S>>, Option<&Tensor<S>>, S, usize, usize) -> Tensor<
            S,
        >,
    >(
        &self,
        input: &Tensor<S>,
        layout: Result<(usize, usize), ShapeError>,
        backend: B,
        host: H,
    ) -> (r: Result<Tensor<S>, AutodiffError>)
        requires
            forall|w: Option<&Tensor<S>>, b: Option<&Tensor<S>>|
                call_requires(backend, (input, w, b, self@.eps)),
            forall|w: Option<&Tensor<S>>, b: Option<&Tensor<S>>, rows: usize, hidden: usize|
                call_requires(host, (input, w, b, self@.eps, rows, hidden)),
        ensures
            match self.input_error(layout) {
                Some(e) => outcome(r) == Err::<TensorModel<S>, _>(e),
                None => exists|
                    w: Option<&Tensor<S>>,
                    b: Option<&Tensor<S>>,
                    reply: Result<Tensor<S>, BackendError>,
                    fallback: TensorModel<S>,
                |
                    {
                        &&& refers(w, self@.weight)
                        &&& refers(b, self@.bias)
                        &&& #[trigger] call_ensures(backend, (input, w, b, self@.eps), reply)
                        &&& is_unsupported(reply) ==> exists|value: Tensor<S>|
                            #[trigger] call_ensures(
                                host,
                                (input, w, b, self@.eps, layout->Ok_0.0, layout->Ok_0.1),
                                value,
                            ) && value@ == fallback
                        &&& outcome(r) == #[trigger] settled(input@.shape, reply, fallback)
                    },
            },
    {
        let (rows, hidden): (usize, usize) = match layout {
            Err(e) => {
                return Err(AutodiffError::Shape(e));
            },
            Ok((rows, hidden)) => (rows, hidden),
        };
        match check_row(&self.weight, hidden) {
            Err(e) => {
                return Err(e);
            },
            Ok(_) => {},
        }
        match check_row(&self.bias, hidden) {
            Err(e) => {
                return Err(e);
            },
            Ok(_) => {},
        }
        let w: Option<&Tensor<S>> = self.weight();
        let b: Option<&Tensor<S>> = self.bias();
        let eps: S = self.eps();
        let reply: Result<Tensor<S>, BackendError> = backend(input, w, b, eps);
        let ghost replied = reply;
        let ghost mut fallback: TensorModel<S> = input@;
        let r: Result<Tensor<S>, AutodiffError> = match reply {
            Ok(value) => with_expected_shape(value, input.shape()),
            Err(BackendError::Unsupported(_)) => {
                let value: Tensor<S> = host(input, w, b, eps, rows, hidden);
                proof {
                    fallback = value@;
                }
                with_expected_shape(value, input.shape())
            },
            Err(e) => Err(AutodiffError::Backend(e)),
        };
        assert(outcome(r) == settled(input@.shape, replied, fallback));
        r
    }
}

} // verus!
