//! What layers with named parameters have in common.
use crate::dict::StateDict;
use crate::error::{AutodiffError, ErrorModel, described};
use crate::norm::{LayerNorm, RmsNorm};
use crate::tensor::{Tensor, TensorModel, same_shape};
use crate::text::{
    ascending, bracketed, bracketed_text, bracketed_texts, comes_before, followed_by, joined,
    list_quoted, ordered, pushed_contains, same_text, sorted_texts, text_models,
    text_order_is_strict, texts_without,
};
use vstd::pervasive::arbitrary;
use vstd::prelude::*;

verus! {

/// The names of a list of parameters.
pub open spec fn names<'a, S>(list: Seq<(String, &'a Tensor<S>)>) -> Seq<Seq<char>> {
    list.map_values(|entry: (String, &'a Tensor<S>)| entry.0@)
}

/// Whether a list holds each parameter once, under its name.
pub open spec fn lists<'a, S>(
    list: Seq<(String, &'a Tensor<S>)>,
    parameters: Map<Seq<char>, TensorModel<S>>,
) -> bool {
    &&& names(list).no_duplicates()
    &&& names(list).to_set() == parameters.dom()
    &&& forall|i: int| 0 <= i < list.len() ==> parameters[(#[trigger] list[i]).0@] == list[i].1@
}

/// The list of a layer that has no parameters.
pub(crate) fn no_parameters<'a, S>() -> (r: Vec<(String, &'a Tensor<S>)>)
    ensures
        lists(r@, Map::empty()),
{
    let none: Vec<(String, &'a Tensor<S>)> = Vec::new();
    assert(names(none@).to_set() =~= Set::empty());
    none
}

/// The error of a layer that has no parameters to set.
pub open spec fn unknown_parameter(name: Seq<char>) -> ErrorModel {
    ErrorModel::InvalidArgument(
        "Module::set_parameter: no parameter named `"@ + name
            + "` (default fail-safe; this Module does not override set_parameter)"@,
    )
}

pub(crate) fn refuse_parameter(name: &str) -> (r: AutodiffError)
    ensures
        r@ == unknown_parameter(name@),
{
    let text: String = joined("Module::set_parameter: no parameter named `", name);
    AutodiffError::InvalidArgument(
        followed_by(text, "` (default fail-safe; this Module does not override set_parameter)"),
    )
}

/// The name of a child's parameter in its parent.
pub open spec fn child_name(prefix: Seq<char>, name: Seq<char>) -> Seq<char> {
    prefix + "."@ + name
}

/// The parameters of a child under their names in the parent.
pub fn prefixed<'a, S>(prefix: &str, inner: Vec<(String, &'a Tensor<S>)>) -> (r: Vec<
    (String, &'a Tensor<S>),
>)
    ensures
        r@.len() == inner@.len(),
        forall|i: int|
            0 <= i < r@.len() ==> (#[trigger] r@[i]).0@ == child_name(prefix@, inner@[i].0@)
                && r@[i].1 == inner@[i].1,
{
    let mut out: Vec<(String, &'a Tensor<S>)> = Vec::new();
    let mut i: usize = 0;
    while i < inner.len()
        invariant
            i <= inner@.len(),
            out@.len() == i,
            forall|k: int|
                0 <= k < i ==> (#[trigger] out@[k]).0@ == child_name(prefix@, inner@[k].0@)
                    && out@[k].1 == inner@[k].1,
        decreases inner@.len() - i,
    {
        let mut name: String = joined(prefix, ".");
        name.append(inner[i].0.as_str());
        out.push((name, inner[i].1));
        i = i + 1;
    }
    out
}

/// The name of a child's parameter in the child, where `name` is its name in the
/// parent and the child stands under `prefix`.
pub fn strip_child_prefix<'a>(name: &'a str, prefix: &str) -> (r: Option<&'a str>)
    ensures
        match r {
            Some(rest) => name@ == child_name(prefix@, rest@),
            None => forall|rest: Seq<char>| name@ != #[trigger] child_name(prefix@, rest),
        },
{
    proof {
        reveal_strlit(".");
    }
    let n: usize = name.unicode_len();
    let m: usize = prefix.unicode_len();
    if n <= m {
        assert forall|rest: Seq<char>| name@ != #[trigger] child_name(prefix@, rest) by {
            assert(child_name(prefix@, rest).len() > m);
        }
        return None;
    }
    let front: &str = name.substring_char(0, m);
    if !same_text(front, prefix) || name.get_char(m) != '.' {
        assert forall|rest: Seq<char>| name@ != #[trigger] child_name(prefix@, rest) by {
            let whole = child_name(prefix@, rest);
            if whole == name@ {
                assert(whole[m as int] == '.');
                assert(front@ =~= prefix@);
            }
        }
        return None;
    }
    let rest: &'a str = name.substring_char(m + 1, n);
    assert(name@ =~= child_name(prefix@, rest@));
    Some(rest)
}

/// A name in a parent stands for one name in the child.
pub proof fn child_names_are_distinct(prefix: Seq<char>, a: Seq<char>, b: Seq<char>)
    requires
        child_name(prefix, a) == child_name(prefix, b),
    ensures
        a == b,
{
    let front = (prefix + "."@).len() as int;
    assert(child_name(prefix, a).skip(front) =~= a);
    assert(child_name(prefix, b).skip(front) =~= b);
}

/// The parameters after the first `n` of the given names have been set.
pub open spec fn overlaid<S>(
    parameters: Map<Seq<char>, TensorModel<S>>,
    state: Map<Seq<char>, TensorModel<S>>,
    order: Seq<Seq<char>>,
    n: int,
) -> Map<Seq<char>, TensorModel<S>>
    decreases n,
{
    if n <= 0 {
        parameters
    } else {
        overlaid(parameters, state, order, n - 1).insert(order[n - 1], state[order[n - 1]])
    }
}

proof fn overlaid_values<S>(
    parameters: Map<Seq<char>, TensorModel<S>>,
    state: Map<Seq<char>, TensorModel<S>>,
    order: Seq<Seq<char>>,
    n: int,
)
    requires
        0 <= n <= order.len(),
        forall|i: int| 0 <= i < order.len() ==> parameters.dom().contains(#[trigger] order[i]),
    ensures
        overlaid(parameters, state, order, n).dom() == parameters.dom(),
        forall|key: Seq<char>| #[trigger]
            overlaid(parameters, state, order, n)[key] == if order.take(n).contains(key) {
                state[key]
            } else {
                parameters[key]
            },
    decreases n,
{
    if n > 0 {
        overlaid_values(parameters, state, order, n - 1);
        let before = overlaid(parameters, state, order, n - 1);
        let after = overlaid(parameters, state, order, n);
        assert(parameters.dom().contains(order[n - 1]));
        assert(after.dom() =~= parameters.dom());
        assert forall|key: Seq<char>| #[trigger]
            after[key] == if order.take(n).contains(key) {
                state[key]
            } else {
                parameters[key]
            } by {
            assert(before[key] == if order.take(n - 1).contains(key) {
                state[key]
            } else {
                parameters[key]
            });
            if key == order[n - 1] {
                assert(order.take(n)[n - 1] == key);
            } else {
                if order.take(n).contains(key) {
                    let i = order.take(n).index_of(key);
                    assert(order.take(n - 1)[i] == key);
                }
                if order.take(n - 1).contains(key) {
                    let i = order.take(n - 1).index_of(key);
                    assert(order.take(n)[i] == key);
                }
            }
        }
    } else {
        assert(!order.take(0).contains(arbitrary()));
    }
}

/// Whether values have the shapes of the parameters that they are for.
pub open spec fn shapes_agree<S>(
    parameters: Map<Seq<char>, TensorModel<S>>,
    state: Map<Seq<char>, TensorModel<S>>,
) -> bool {
    forall|name: Seq<char>| #[trigger]
        parameters.dom().contains(name) ==> state[name].shape == parameters[name].shape
}

/// The error that lists the given names, in ascending order.
pub open spec fn report(what: &str, wrong: Set<Seq<char>>) -> ErrorModel {
    ErrorModel::InvalidArgument(what@ + bracketed_texts(ordered(wrong)))
}

/// Whether values can be loaded into parameters, as far as names and shapes go.
pub open spec fn loadable<S>(
    parameters: Map<Seq<char>, TensorModel<S>>,
    state: Map<Seq<char>, TensorModel<S>>,
) -> bool {
    parameters.dom() == state.dom() && shapes_agree(parameters, state)
}

/// The error of a value that has another shape than its parameter.
pub open spec fn wrong_shape(
    name: Seq<char>,
    expected: Seq<usize>,
    given: Seq<usize>,
) -> ErrorModel {
    ErrorModel::InvalidArgument(
        "Module::load_state_dict: shape mismatch for `"@ + name + "`: expected "@ + bracketed(
            expected,
        ) + ", got "@ + bracketed(given),
    )
}

fn refuse_shape(name: &str, expected: &[usize], given: &[usize]) -> (r: AutodiffError)
    ensures
        r@ == wrong_shape(name@, expected@, given@),
{
    let text: String = joined("Module::load_state_dict: shape mismatch for `", name);
    let text: String = followed_by(text, "`: expected ");
    let text: String = followed_by(text, bracketed_text(expected).as_str());
    let text: String = followed_by(text, ", got ");
    AutodiffError::InvalidArgument(followed_by(text, bracketed_text(given).as_str()))
}

/// The error where a parameter cannot be set and another, set before, cannot be set
/// back.
pub open spec fn not_set_back(
    name: Seq<char>,
    failure: ErrorModel,
    earlier: Seq<char>,
    second: ErrorModel,
) -> ErrorModel {
    ErrorModel::InvalidArgument(
        "Module::load_state_dict: failed to apply `"@ + name + "` ("@ + described(failure)
            + "), and rollback of already-applied key `"@ + earlier + "` also failed ("@
            + described(second)
            + "); the module may now be left in a partially applied state"@,
    )
}

fn refuse_half(
    name: &str,
    failure: &AutodiffError,
    earlier: &str,
    second: &AutodiffError,
) -> (r: AutodiffError)
    ensures
        r@ == not_set_back(name@, failure@, earlier@, second@),
{
    let text: String = joined("Module::load_state_dict: failed to apply `", name);
    let text: String = followed_by(followed_by(text, "` ("), failure.describe().as_str());
    let text: String = followed_by(text, "), and rollback of already-applied key `");
    let text: String = followed_by(followed_by(text, earlier), "` also failed (");
    let text: String = followed_by(text, second.describe().as_str());
    AutodiffError::InvalidArgument(
        followed_by(text, "); the module may now be left in a partially applied state"),
    )
}

/// A call that sets a parameter, and the error with which it failed if it did.
#[verifier::ext_equal]
pub struct Setting<S> {
    pub name: Seq<char>,
    pub value: TensorModel<S>,
    pub error: Option<ErrorModel>,
}

/// The calls that set the first `n` of the given names, in order.
pub open spec fn applied<S>(
    order: Seq<Seq<char>>,
    state: Map<Seq<char>, TensorModel<S>>,
    n: int,
) -> Seq<Setting<S>> {
    Seq::new(
        n as nat,
        |i: int| Setting { name: order[i], value: state[order[i]], error: None },
    )
}

/// The calls that set `m` names back that stand before position `k`, the last one
/// first.
pub open spec fn set_back_calls<S>(
    order: Seq<Seq<char>>,
    before: Map<Seq<char>, TensorModel<S>>,
    k: int,
    m: int,
) -> Seq<Setting<S>> {
    Seq::new(
        m as nat,
        |i: int|
            Setting { name: order[k - 1 - i], value: before[order[k - 1 - i]], error: None },
    )
}

/// The calls up to the one for position `k` that fails.
pub open spec fn applied_until<S>(
    order: Seq<Seq<char>>,
    state: Map<Seq<char>, TensorModel<S>>,
    k: int,
    failure: ErrorModel,
) -> Seq<Setting<S>> {
    applied(order, state, k).push(
        Setting { name: order[k], value: state[order[k]], error: Some(failure) },
    )
}

/// Whether the calls `made` are those of a loading in which the call for position
/// `k` is the first that fails, and all names before it are set back.
pub open spec fn undone_at<S>(
    before: Map<Seq<char>, TensorModel<S>>,
    state: Map<Seq<char>, TensorModel<S>>,
    made: Seq<Setting<S>>,
    k: int,
    failure: ErrorModel,
) -> bool {
    let order = ordered(state.dom());
    &&& 0 <= k < order.len()
    &&& made == applied_until(order, state, k, failure) + set_back_calls(order, before, k, k)
}

/// Whether the calls `made` are those of a loading in which the call for position
/// `k` is the first that fails, and `m` names are set back before the next one
/// cannot be.
pub open spec fn stuck_at<S>(
    before: Map<Seq<char>, TensorModel<S>>,
    state: Map<Seq<char>, TensorModel<S>>,
    made: Seq<Setting<S>>,
    k: int,
    failure: ErrorModel,
    m: int,
    second: ErrorModel,
) -> bool {
    let order = ordered(state.dom());
    let earlier = order[k - 1 - m];
    &&& 0 <= m < k < order.len()
    &&& made == applied_until(order, state, k, failure) + set_back_calls(order, before, k, m).push(
        Setting { name: earlier, value: before[earlier], error: Some(second) },
    )
}

/// Whether the calls `made` are those of a loading that ends with the given error,
/// or without one.
pub open spec fn loads<S>(
    before: Map<Seq<char>, TensorModel<S>>,
    state: Map<Seq<char>, TensorModel<S>>,
    made: Seq<Setting<S>>,
    error: Option<ErrorModel>,
) -> bool {
    let order = ordered(state.dom());
    match error {
        None => made == applied(order, state, order.len() as int),
        Some(e) => {
            ||| exists|k: int| #[trigger] undone_at(before, state, made, k, e)
            ||| exists|k: int, failure: ErrorModel, m: int, second: ErrorModel|
                {
                    &&& #[trigger] stuck_at(before, state, made, k, failure, m, second)
                    &&& e == not_set_back(order[k], failure, order[k - 1 - m], second)
                }
        },
    }
}

/// The error of a result, if it has one.
pub open spec fn failure_of(r: Result<(), AutodiffError>) -> Option<ErrorModel> {
    match r {
        Ok(_) => None,
        Err(e) => Some(e@),
    }
}

/// Whether an error is the one for values that cannot be loaded.
pub open spec fn load_refused<S>(
    parameters: Map<Seq<char>, TensorModel<S>>,
    state: Map<Seq<char>, TensorModel<S>>,
    error: ErrorModel,
) -> bool {
    let missing = parameters.dom().difference(state.dom());
    let unexpected = state.dom().difference(parameters.dom());
    if missing != Set::<Seq<char>>::empty() {
        error == report("Module::load_state_dict: missing keys: ", missing)
    } else if unexpected != Set::<Seq<char>>::empty() {
        error == report("Module::load_state_dict: unexpected keys: ", unexpected)
    } else {
        exists|name: Seq<char>|
            {
                &&& #[trigger] parameters.dom().contains(name)
                &&& state[name].shape != parameters[name].shape
                &&& error == wrong_shape(name, parameters[name].shape, state[name].shape)
            }
    }
}

/// Refuses values that cannot be loaded into parameters.
fn check_state<S>(snapshot: &StateDict<S>, state: &StateDict<S>) -> (r: Result<(), AutodiffError>)
    ensures
        match r {
            Ok(_) => loadable(snapshot@, state@),
            Err(e) => !loadable(snapshot@, state@) && load_refused(snapshot@, state@, e@),
        },
{
    let ghost before = snapshot@;
    let expected: Vec<String> = snapshot.keys();
    let given: Vec<String> = state.keys();
    let missing: Vec<String> = texts_without(&expected, &given);
    if missing.len() > 0 {
        let reason: String = joined(
            "Module::load_state_dict: missing keys: ",
            list_quoted(&missing).as_str(),
        );
        proof {
            assert(text_models(expected@).to_set().contains(text_models(missing@)[0])) by {
                assert(text_models(missing@).to_set().contains(text_models(missing@)[0]));
            }
            assert(before.dom().difference(state@.dom()).contains(text_models(missing@)[0]));
        }
        return Err(AutodiffError::InvalidArgument(reason));
    }
    assert(before.dom().difference(state@.dom()) == Set::<Seq<char>>::empty()) by {
        assert(text_models(missing@).to_set() =~= Set::empty());
    }
    let unexpected: Vec<String> = texts_without(&given, &expected);
    if unexpected.len() > 0 {
        let reason: String = joined(
            "Module::load_state_dict: unexpected keys: ",
            list_quoted(&unexpected).as_str(),
        );
        proof {
            assert(text_models(given@).to_set().contains(text_models(unexpected@)[0])) by {
                assert(text_models(unexpected@).to_set().contains(text_models(unexpected@)[0]));
            }
            assert(state@.dom().difference(before.dom()).contains(text_models(unexpected@)[0]));
        }
        return Err(AutodiffError::InvalidArgument(reason));
    }
    proof {
        assert forall|name: Seq<char>|
            before.dom().contains(name) <==> state@.dom().contains(name) by {
            assert(before.dom().difference(state@.dom()).contains(name) <==> Set::<
                Seq<char>,
            >::empty().contains(name));
            assert(state@.dom().difference(before.dom()).contains(name) <==> Set::<
                Seq<char>,
            >::empty().contains(name));
        }
        assert(before.dom() =~= state@.dom());
    }
    let mut i: usize = 0;
    while i < expected.len()
        invariant
            i <= expected@.len(),
            snapshot@ == before,
            before.dom() == state@.dom(),
            before.dom().difference(state@.dom()) == Set::<Seq<char>>::empty(),
            state@.dom().difference(before.dom()) == Set::<Seq<char>>::empty(),
            text_models(expected@).to_set() == before.dom(),
            forall|k: int|
                0 <= k < i ==> state@[(#[trigger] expected@[k])@].shape
                    == before[expected@[k]@].shape,
        decreases expected@.len() - i,
    {
        let name: &String = &expected[i];
        assert(text_models(expected@)[i as int] == name@);
        assert(text_models(expected@).to_set().contains(name@));
        let current: Option<&Tensor<S>> = snapshot.get(name.as_str());
        let next: Option<&Tensor<S>> = state.get(name.as_str());
        match (current, next) {
            (Some(current), Some(next)) => {
                if !same_shape(next.shape(), current.shape()) {
                    assert(before.dom().contains(name@));
                    return Err(refuse_shape(name.as_str(), current.shape(), next.shape()));
                }
            },
            _ => {},
        }
        i = i + 1;
    }
    proof {
        assert forall|name: Seq<char>| #[trigger] before.dom().contains(name) implies state@[name].shape
            == before[name].shape by {
            assert(text_models(expected@).contains(name));
            let k = text_models(expected@).index_of(name);
            assert(expected@[k]@ == name);
        }
    }
    Ok(())
}

/// A layer with named parameters.
pub trait Module<S: Copy> {
    /// The parameters by name.
    open spec fn parameters(&self) -> Map<Seq<char>, TensorModel<S>> {
        arbitrary()
    }

    /// Whether it is certain that a parameter can be set to a value of the given
    /// shape.
    open spec fn accepts(&self, name: Seq<char>, shape: Seq<usize>) -> bool {
        arbitrary()
    }

    /// Whether setting a parameter to a value may fail with the given error.
    open spec fn may_refuse(
        &self,
        name: Seq<char>,
        value: TensorModel<S>,
        error: ErrorModel,
    ) -> bool {
        arbitrary()
    }

    /// Whether a parameter that has been set to a value can from then on be set to
    /// any value of that shape.
    open spec fn reliable(&self) -> bool {
        arbitrary()
    }

    /// Why a parameter cannot be set to a value of the given shape.
    open spec fn refusal(&self, name: Seq<char>, shape: Seq<usize>) -> ErrorModel {
        arbitrary()
    }

    /// Whether what can be set, and why something cannot, is fixed by the name and
    /// the shape and stays the same when parameters are set.
    open spec fn steady(&self) -> bool {
        arbitrary()
    }

    /// Whether a record is kept of the calls that set parameters.
    open spec fn recorded(&self) -> bool {
        arbitrary()
    }

    /// The calls that have set parameters so far, where a record is kept of them.
    open spec fn settings(&self) -> Seq<Setting<S>> {
        arbitrary()
    }

    /// The parameters with their names, in the order of the layer's fields.
    fn named_parameters(&self) -> (r: Vec<(String, &Tensor<S>)>)
        ensures
            lists(r@, self.parameters()),
    ;

    /// Replaces the value of a parameter by one of the same shape.
    fn set_parameter(&mut self, name: &str, value: Tensor<S>) -> (r: Result<(), AutodiffError>)
        ensures
            match r {
                Ok(_) => {
                    &&& old(self).parameters().dom().contains(name@)
                    &&& value@.shape == old(self).parameters()[name@].shape
                    &&& final(self).parameters() == old(self).parameters().insert(name@, value@)
                },
                Err(e) => {
                    &&& old(self).may_refuse(name@, value@, e@)
                    &&& final(self).parameters() == old(self).parameters()
                },
            },
            old(self).reliable() ==> {
                &&& final(self).reliable()
                &&& old(self).accepts(name@, value@.shape) ==> r is Ok
                &&& r is Ok ==> final(self).accepts(name@, value@.shape)
                &&& forall|n: Seq<char>, shape: Seq<usize>| #[trigger]
                    old(self).accepts(n, shape) ==> final(self).accepts(n, shape)
                &&& forall|n: Seq<char>, v: TensorModel<S>, e: ErrorModel| #[trigger]
                    final(self).may_refuse(n, v, e) == old(self).may_refuse(n, v, e)
            },
            old(self).steady() ==> {
                &&& r is Ok <==> old(self).accepts(name@, value@.shape)
                &&& r matches Err(e) ==> e@ == old(self).refusal(name@, value@.shape)
                &&& final(self).steady()
                &&& forall|n: Seq<char>, shape: Seq<usize>| #[trigger]
                    final(self).accepts(n, shape) == old(self).accepts(n, shape)
                &&& forall|n: Seq<char>, shape: Seq<usize>| #[trigger]
                    final(self).refusal(n, shape) == old(self).refusal(n, shape)
            },
            old(self).recorded() ==> {
                &&& final(self).recorded()
                &&& final(self).settings() == old(self).settings().push(
                    Setting { name: name@, value: value@, error: failure_of(r) },
                )
            },
    ;

    /// Whether the layer can be computed without recording the computation.
    fn supports_forward_host(&self) -> (r: bool)
        default_ensures
            r,
    {
        true
    }

    /// The layer itself, where it normalizes by mean and variance.
    fn as_layer_norm(&self) -> (r: Option<&LayerNorm<S>>)
        default_ensures
            r is None,
    {
        None
    }

    /// The layer itself, where it normalizes by mean and variance.
    fn as_layer_norm_mut(&mut self) -> (r: Option<&mut LayerNorm<S>>)
        default_ensures
            r is None,
            final(self).parameters() == old(self).parameters(),
    {
        None
    }

    /// The layer itself, where it normalizes by the root of the mean square.
    fn as_rms_norm(&self) -> (r: Option<&RmsNorm<S>>)
        default_ensures
            r is None,
    {
        None
    }

    /// The layer itself, where it normalizes by the root of the mean square.
    fn as_rms_norm_mut(&mut self) -> (r: Option<&mut RmsNorm<S>>)
        default_ensures
            r is None,
            final(self).parameters() == old(self).parameters(),
    {
        None
    }

    /// Whether the layer rectifies its input.
    fn as_relu(&self) -> (r: bool)
        default_ensures
            !r,
    {
        false
    }

    /// Whether the layer is a pooling layer.
    fn is_pooling(&self) -> (r: bool)
        default_ensures
            !r,
    {
        false
    }

    /// Switches between training and evaluation. Only layers that differ in the two
    /// modes hold one.
    fn set_training(&mut self, _training: bool)
        ensures
            final(self).parameters() == old(self).parameters(),
            old(self).recorded() ==> final(self).recorded() && final(self).settings() == old(
                self,
            ).settings(),
    {
    }

    /// Whether the layer is in training mode.
    fn training(&self) -> (r: bool)
        default_ensures
            r,
    {
        true
    }

    /// Copies of the parameters by name.
    fn state_dict(&self) -> (r: StateDict<S>)
        ensures
            r@ == self.parameters(),
    {
        let list: Vec<(String, &Tensor<S>)> = self.named_parameters();
        let ghost all = names(list@);
        let mut dict: StateDict<S> = StateDict::new();
        let mut i: usize = 0;
        while i < list.len()
            invariant
                all == names(list@),
                lists(list@, self.parameters()),
                i <= list@.len(),
                dict@.dom() == all.take(i as int).to_set(),
                forall|key: Seq<char>| #[trigger]
                    dict@.dom().contains(key) ==> dict@[key] == self.parameters()[key],
            decreases list@.len() - i,
        {
            let ghost before = dict@;
            dict.insert(list[i].0.as_str().to_owned(), list[i].1.duplicate());
            proof {
                let name = list@[i as int].0@;
                assert(all[i as int] == name);
                assert(all.take(i + 1) =~= all.take(i as int).push(name));
                assert forall|x: Seq<char>| #[trigger]
                    dict@.dom().contains(x) <==> all.take(i + 1).to_set().contains(x) by {
                    pushed_contains(all.take(i as int), name, x);
                    assert(before.dom().contains(x) <==> all.take(i as int).contains(x));
                }
                assert(dict@.dom() =~= all.take(i + 1).to_set());
            }
            i = i + 1;
        }
        assert(all.take(i as int) =~= all);
        assert(dict@ =~= self.parameters());
        dict
    }

    /// Sets all parameters to the values of a dictionary, which must hold a value of
    /// the right shape for each of them and nothing else.
    ///
    /// The values are set in ascending order of their names. Where one cannot be
    /// set, those that were are set back, the last one first, and the error is that
    /// of the value that could not be set, unless one cannot be set back.
    fn load_state_dict(&mut self, state: StateDict<S>) -> (r: Result<(), AutodiffError>)
        ensures
            match r {
                Ok(_) => {
                    &&& loadable(old(self).parameters(), state@)
                    &&& final(self).parameters() == state@
                },
                Err(e) => if loadable(old(self).parameters(), state@) {
                    ||| final(self).parameters() == old(self).parameters()
                    ||| exists|k: int, failure: ErrorModel, j: int, second: ErrorModel|
                        {
                            &&& 0 <= j < k < ordered(state@.dom()).len()
                            &&& e@ == #[trigger] not_set_back(
                                ordered(state@.dom())[k],
                                failure,
                                ordered(state@.dom())[j],
                                second,
                            )
                        }
                } else {
                    &&& load_refused(old(self).parameters(), state@, e@)
                    &&& final(self).parameters() == old(self).parameters()
                },
            },
            old(self).reliable() ==> {
                &&& r is Err ==> final(self).parameters() == old(self).parameters()
                &&& r matches Err(e) ==> {
                    ||| !loadable(old(self).parameters(), state@)
                    ||| exists|k: int|
                        #![trigger ordered(state@.dom())[k]]
                        {
                            let order = ordered(state@.dom());
                            let name = order[k];
                            &&& 0 <= k < order.len()
                            &&& !old(self).accepts(name, state@[name].shape)
                            &&& old(self).may_refuse(name, state@[name], e@)
                        }
                }
            },
            old(self).steady() ==> {
                &&& r is Ok <==> loadable(old(self).parameters(), state@) && forall|
                    name: Seq<char>,
                | #[trigger]
                    state@.dom().contains(name) ==> old(self).accepts(name, state@[name].shape)
                &&& r is Err ==> final(self).parameters() == old(self).parameters()
                &&& r matches Err(e) ==> {
                    ||| !loadable(old(self).parameters(), state@)
                    ||| exists|k: int|
                        #![trigger ordered(state@.dom())[k]]
                        {
                            let order = ordered(state@.dom());
                            let name = order[k];
                            &&& 0 <= k < order.len()
                            &&& forall|j: int|
                                #![trigger order[j]]
                                0 <= j < k ==> old(self).accepts(order[j], state@[order[j]].shape)
                            &&& !old(self).accepts(name, state@[name].shape)
                            &&& e@ == old(self).refusal(name, state@[name].shape)
                        }
                }
            },
            old(self).recorded() ==> final(self).recorded(),
            old(self).recorded() && !loadable(old(self).parameters(), state@)
                ==> final(self).settings() == old(self).settings(),
            old(self).recorded() && loadable(old(self).parameters(), state@) ==> exists|
                made: Seq<Setting<S>>,
            |
                {
                    &&& final(self).settings() == old(self).settings() + made
                    &&& #[trigger] loads(old(self).parameters(), state@, made, failure_of(r))
                    &&& old(self).reliable() ==> {
                        r matches Err(e) ==> exists|k: int| #[trigger]
                            undone_at(old(self).parameters(), state@, made, k, e@)
                    }
                },
    {
        let ghost before = self.parameters();
        let snapshot: StateDict<S> = self.state_dict();
        match check_state(&snapshot, &state) {
            Err(e) => {
                return Err(e);
            },
            Ok(_) => {},
        }
        let given: Vec<String> = state.keys();
        let order: Vec<String> = sorted_texts(&given);
        let ghost sorted = text_models(order@);
        proof {
            assert forall|k: int| 0 <= k < sorted.len() implies before.dom().contains(
                #[trigger] sorted[k],
            ) by {
                assert(sorted.to_set().contains(sorted[k]));
            }
        }
        let mut n: usize = 0;
        while n < order.len()
            invariant
                loadable(before, state@),
                before == old(self).parameters(),
                snapshot@ == before,
                sorted == text_models(order@),
                ascending(sorted),
                sorted.to_set() == before.dom(),
                sorted == ordered(state@.dom()),
                forall|k: int|
                    0 <= k < sorted.len() ==> before.dom().contains(#[trigger] sorted[k]),
                n <= order@.len(),
                self.parameters() == overlaid(before, state@, sorted, n as int),
                old(self).recorded() ==> self.recorded(),
                old(self).recorded() ==> self.settings() == old(self).settings() + applied(
                    sorted,
                    state@,
                    n as int,
                ),
                old(self).steady() ==> self.steady(),
                old(self).steady() ==> forall|m: Seq<char>, shape: Seq<usize>| #[trigger]
                    self.accepts(m, shape) == old(self).accepts(m, shape),
                old(self).steady() ==> forall|m: Seq<char>, shape: Seq<usize>| #[trigger]
                    self.refusal(m, shape) == old(self).refusal(m, shape),
                old(self).steady() ==> forall|k: int|
                    0 <= k < n ==> old(self).accepts(
                        #[trigger] sorted[k],
                        state@[sorted[k]].shape,
                    ),
                old(self).reliable() ==> self.reliable(),
                old(self).reliable() ==> forall|m: Seq<char>, shape: Seq<usize>| #[trigger]
                    old(self).accepts(m, shape) ==> self.accepts(m, shape),
                old(self).reliable() ==> forall|m: Seq<char>, v: TensorModel<S>, e: ErrorModel|
                    #[trigger] self.may_refuse(m, v, e) == old(self).may_refuse(m, v, e),
                old(self).reliable() ==> forall|k: int|
                    0 <= k < n ==> self.accepts(#[trigger] sorted[k], state@[sorted[k]].shape),
            decreases order@.len() - n,
        {
            let name: &String = &order[n];
            assert(sorted[n as int] == name@);
            let value: Tensor<S> = match state.get(name.as_str()) {
                Some(value) => value.duplicate(),
                None => {
                    return Ok(());
                },
            };
            assert(value@ == state@[name@]);
            match self.set_parameter(name.as_str(), value) {
                Ok(_) => {
                    proof {
                        assert(applied(sorted, state@, n + 1) =~= applied(
                            sorted,
                            state@,
                            n as int,
                        ).push(
                            Setting {
                                name: sorted[n as int],
                                value: state@[sorted[n as int]],
                                error: None,
                            },
                        ));
                        assert(old(self).recorded() ==> self.settings() =~= old(self).settings()
                            + applied(sorted, state@, n + 1));
                    }
                },
                Err(e) => {
                    proof {
                        assert(state@.dom().contains(name@));
                        assert(old(self).recorded() ==> self.settings() =~= old(self).settings() + (
                        applied_until(sorted, state@, n as int, e@) + set_back_calls(
                            sorted,
                            before,
                            n as int,
                            0,
                        )));
                    }
                    let mut back: usize = n;
                    while back > 0
                        invariant
                            loadable(before, state@),
                            before == old(self).parameters(),
                            snapshot@ == before,
                            sorted == text_models(order@),
                            ascending(sorted),
                            forall|k: int|
                                0 <= k < sorted.len() ==> before.dom().contains(
                                    #[trigger] sorted[k],
                                ),
                            back <= n < order@.len(),
                            old(self).recorded() ==> self.recorded(),
                            old(self).recorded() ==> self.settings() == old(self).settings() + (
                            applied_until(sorted, state@, n as int, e@) + set_back_calls(
                                sorted,
                                before,
                                n as int,
                                n - back,
                            )),
                            self.parameters() == overlaid(before, state@, sorted, back as int),
                            old(self).steady() ==> self.steady(),
                            old(self).steady() ==> forall|m: Seq<char>, shape: Seq<usize>|
                                #[trigger] self.accepts(m, shape) == old(self).accepts(m, shape),
                            sorted == ordered(state@.dom()),
                            old(self).reliable() ==> self.reliable(),
                            old(self).reliable() ==> forall|k: int|
                                0 <= k < n ==> self.accepts(
                                    #[trigger] sorted[k],
                                    state@[sorted[k]].shape,
                                ),
                            old(self).reliable() ==> !old(self).accepts(
                                sorted[n as int],
                                state@[sorted[n as int]].shape,
                            ),
                            old(self).reliable() ==> old(self).may_refuse(
                                sorted[n as int],
                                state@[sorted[n as int]],
                                e@,
                            ),
                            old(self).steady() ==> e@ == old(self).refusal(
                                sorted[n as int],
                                state@[sorted[n as int]].shape,
                            ),
                            old(self).steady() ==> forall|k: int|
                                0 <= k < n ==> old(self).accepts(
                                    #[trigger] sorted[k],
                                    state@[sorted[k]].shape,
                                ),
                            old(self).steady() ==> !old(self).accepts(
                                sorted[n as int],
                                state@[sorted[n as int]].shape,
                            ),
                        decreases back,
                    {
                        back = back - 1;
                        let earlier: &String = &order[back];
                        assert(sorted[back as int] == earlier@);
                        let value: Tensor<S> = match snapshot.get(earlier.as_str()) {
                            Some(value) => value.duplicate(),
                            None => {
                                return Err(e);
                            },
                        };
                        assert(value@ == before[earlier@]);
                        let ghost until = set_back_calls(sorted, before, n as int, n - back - 1);
                        match self.set_parameter(earlier.as_str(), value) {
                            Ok(_) => {
                                proof {
                                    set_back(before, state@, sorted, back as int);
                                    assert(set_back_calls(sorted, before, n as int, n - back)
                                        =~= until.push(
                                        Setting {
                                            name: sorted[back as int],
                                            value: before[sorted[back as int]],
                                            error: None,
                                        },
                                    ));
                                    assert(old(self).recorded() ==> self.settings() =~= old(
                                        self,
                                    ).settings() + (applied_until(sorted, state@, n as int, e@)
                                        + set_back_calls(sorted, before, n as int, n - back)));
                                }
                            },
                            Err(second) => {
                                let half: AutodiffError = refuse_half(
                                    order[n].as_str(),
                                    &e,
                                    earlier.as_str(),
                                    &second,
                                );
                                proof {
                                    assert(half@ == not_set_back(
                                        ordered(state@.dom())[n as int],
                                        e@,
                                        ordered(state@.dom())[back as int],
                                        second@,
                                    ));
                                    let last = Setting {
                                        name: sorted[back as int],
                                        value: before[sorted[back as int]],
                                        error: Some(second@),
                                    };
                                    let made = applied_until(sorted, state@, n as int, e@)
                                        + until.push(last);
                                    if old(self).recorded() {
                                        assert(self.settings() =~= old(self).settings() + made);
                                        assert(stuck_at(
                                            before,
                                            state@,
                                            made,
                                            n as int,
                                            e@,
                                            n - back - 1,
                                            second@,
                                        ));
                                        assert(loads(before, state@, made, Some(half@)));
                                    }
                                }
                                return Err(half);
                            },
                        }
                    }
                    proof {
                        let made = applied_until(sorted, state@, n as int, e@) + set_back_calls(
                            sorted,
                            before,
                            n as int,
                            n as int,
                        );
                        assert(undone_at(before, state@, made, n as int, e@));
                        assert(loads(before, state@, made, Some(e@)));
                        if old(self).steady() || old(self).reliable() {
                            assert(!old(self).accepts(
                                ordered(state@.dom())[n as int],
                                state@[sorted[n as int]].shape,
                            ));
                        }
                    }
                    return Err(e);
                },
            }
            n = n + 1;
        }
        proof {
            overlaid_values(before, state@, sorted, n as int);
            assert(sorted.take(n as int) =~= sorted);
            assert forall|key: Seq<char>| #[trigger] state@.dom().contains(key) implies self.parameters()[key]
                == state@[key] by {
                assert(sorted.to_set().contains(key));
            }
            assert(self.parameters() =~= state@);
            assert(loads(before, state@, applied(sorted, state@, n as int), None));
            if old(self).steady() {
                assert forall|name: Seq<char>| #[trigger] state@.dom().contains(name) implies old(
                    self,
                ).accepts(name, state@[name].shape) by {
                    assert(sorted.to_set().contains(name));
                    let k = sorted.index_of(name);
                    assert(sorted[k] == name);
                }
            }
        }
        Ok(())
    }
}

proof fn set_back<S>(
    parameters: Map<Seq<char>, TensorModel<S>>,
    state: Map<Seq<char>, TensorModel<S>>,
    order: Seq<Seq<char>>,
    n: int,
)
    requires
        0 <= n < order.len(),
        ascending(order),
        forall|i: int| 0 <= i < order.len() ==> parameters.dom().contains(#[trigger] order[i]),
    ensures
        overlaid(parameters, state, order, n + 1).insert(order[n], parameters[order[n]])
            == overlaid(parameters, state, order, n),
{
    let name = order[n];
    overlaid_values(parameters, state, order, n);
    let before = overlaid(parameters, state, order, n);
    if order.take(n).contains(name) {
        let i = order.take(n).index_of(name);
        assert(comes_before(order[i], order[n]));
        text_order_is_strict(name);
    }
    assert(before[name] == parameters[name]);
    assert(before.insert(name, state[name]).insert(name, parameters[name]) =~= before);
}

/// What a layer saves has the names and the shapes that it loads.
pub proof fn own_state_can_be_loaded<S>(parameters: Map<Seq<char>, TensorModel<S>>)
    ensures
        loadable(parameters, parameters),
{
}

/// A layer together with a record of the calls that have set its parameters. The
/// layer is not handed out to be changed past the record.
pub struct Recorded<S, M> {
    module: M,
    record: Ghost<Seq<Setting<S>>>,
}

impl<S: Copy, M: Module<S>> Recorded<S, M> {
    /// The layer.
    pub closed spec fn inner(&self) -> M {
        self.module
    }

    /// A layer of whose calls none is recorded yet.
    pub fn new(module: M) -> (r: Recorded<S, M>)
        ensures
            r.inner() == module,
            r.recorded(),
            r.settings() == Seq::<Setting<S>>::empty(),
    {
        Recorded { module, record: Ghost(Seq::empty()) }
    }

    /// The layer.
    pub fn module(&self) -> (r: &M)
        ensures
            *r == self.inner(),
    {
        &self.module
    }
}

impl<S: Copy, M: Module<S>> Module<S> for Recorded<S, M> {
    open spec fn parameters(&self) -> Map<Seq<char>, TensorModel<S>> {
        self.inner().parameters()
    }

    open spec fn accepts(&self, name: Seq<char>, shape: Seq<usize>) -> bool {
        self.inner().accepts(name, shape)
    }

    open spec fn may_refuse(
        &self,
        name: Seq<char>,
        value: TensorModel<S>,
        error: ErrorModel,
    ) -> bool {
        self.inner().may_refuse(name, value, error)
    }

    open spec fn reliable(&self) -> bool {
        self.inner().reliable()
    }

    open spec fn refusal(&self, name: Seq<char>, shape: Seq<usize>) -> ErrorModel {
        self.inner().refusal(name, shape)
    }

    open spec fn steady(&self) -> bool {
        self.inner().steady()
    }

    open spec fn recorded(&self) -> bool {
        true
    }

    closed spec fn settings(&self) -> Seq<Setting<S>> {
        self.record@
    }

    fn named_parameters(&self) -> (r: Vec<(String, &Tensor<S>)>) {
        self.module.named_parameters()
    }

    fn set_parameter(&mut self, name: &str, value: Tensor<S>) -> (r: Result<(), AutodiffError>) {
        let ghost given = value@;
        let r: Result<(), AutodiffError> = self.module.set_parameter(name, value);
        self.record = Ghost(
            self.record@.push(Setting { name: name@, value: given, error: failure_of(r) }),
        );
        r
    }

    fn supports_forward_host(&self) -> (r: bool) {
        self.module.supports_forward_host()
    }

    fn as_layer_norm(&self) -> (r: Option<&LayerNorm<S>>) {
        self.module.as_layer_norm()
    }

    fn as_rms_norm(&self) -> (r: Option<&RmsNorm<S>>) {
        self.module.as_rms_norm()
    }

    fn as_relu(&self) -> (r: bool) {
        self.module.as_relu()
    }

    fn is_pooling(&self) -> (r: bool) {
        self.module.is_pooling()
    }

    fn set_training(&mut self, training: bool) {
        self.module.set_training(training);
    }

    fn training(&self) -> (r: bool) {
        self.module.training()
    }
}

} // verus!
