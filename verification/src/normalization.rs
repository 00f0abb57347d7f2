//! Normalization over groups of channels.
use crate::backend::{is_unsupported, outcome, settled, with_expected_shape};
use crate::error::{AutodiffError, BackendError, ErrorModel, ShapeError, rank_mismatch};
use crate::module::{Module, no_parameters, refuse_parameter, unknown_parameter};
use crate::norm::{eps_refused, validate_eps};
use crate::number::{Real, non_negative};
use crate::tensor::{
    Tensor, TensorModel, checked_product, copied, count, countable, in_bounds, offset, tensor_of,
    with_shape,
};
use crate::text::{followed_by, followed_by_count, joined, numeral};
use vstd::arithmetic::div_mod::lemma_fundamental_div_mod;
use vstd::prelude::*;

verus! {

/// The value that [`GroupNorm`] usually adds before it takes the root.
pub fn group_norm_default_eps<S: Real>() -> (r: S)
    ensures
        r == S::decimal(1, -5),
{
    S::literal(1, -5)
}

/// The value that [`InstanceNorm`] usually adds before it takes the root.
pub fn instance_norm_default_eps<S: Real>() -> (r: S)
    ensures
        r == S::decimal(1, -5),
{
    S::literal(1, -5)
}

/// The error of an argument that `who` refuses for a reason.
pub open spec fn refused_by(who: &str, reason: &str) -> ErrorModel {
    ErrorModel::InvalidArgument(who@ + reason@)
}

/// The error of channels that groups do not divide.
pub open spec fn channels_indivisible(who: &str, channels: nat, groups: nat) -> ErrorModel {
    ErrorModel::InvalidArgument(
        who@ + ": num_channels ("@ + numeral(channels) + ") must be divisible by groups ("@
            + numeral(groups) + ")"@,
    )
}

/// The number of rows, and the length of a row, if each group of channels of one
/// image makes up a row.
pub open spec fn group_layout(shape: Seq<usize>, groups: usize, who: &str) -> Result<
    (usize, usize),
    ErrorModel,
> {
    if shape.len() < 2 {
        Err(ErrorModel::RankMismatch { expected: 2, actual: shape.len() as usize })
    } else if groups == 0 {
        Err(refused_by(who, ": groups must be non-zero"))
    } else if shape[1] as int % groups as int != 0 {
        Err(channels_indivisible(who, shape[1] as nat, groups as nat))
    } else {
        let channels = shape[1] as int / groups as int;
        let spatial = shape.skip(2);
        if shape[0] == 0 || channels == 0 || spatial.contains(0) {
            Ok((shape[0], 0))
        } else if !countable(spatial) || channels * count(spatial) > usize::MAX || shape[0] * groups
            > usize::MAX {
            Err(ErrorModel::ElementCountOverflow)
        } else {
            Ok(((shape[0] * groups) as usize, (channels * count(spatial)) as usize))
        }
    }
}

fn overflow() -> (r: AutodiffError)
    ensures
        r@ == ErrorModel::ElementCountOverflow,
{
    AutodiffError::Shape(ShapeError::ElementCountOverflow)
}

fn has_zero(dims: &[usize]) -> (r: bool)
    ensures
        r == dims@.contains(0),
{
    let mut i: usize = 0;
    while i < dims.len()
        invariant
            i <= dims@.len(),
            forall|k: int| 0 <= k < i ==> #[trigger] dims@[k] != 0,
        decreases dims@.len() - i,
    {
        if dims[i] == 0 {
            assert(dims@.contains(0));
            return true;
        }
        i = i + 1;
    }
    false
}

fn tail(shape: &[usize], from: usize) -> (r: Vec<usize>)
    requires
        from <= shape@.len(),
    ensures
        r@ == shape@.skip(from as int),
{
    let mut out: Vec<usize> = Vec::new();
    let mut i: usize = from;
    while i < shape.len()
        invariant
            from <= i <= shape@.len(),
            out@ == shape@.subrange(from as int, i as int),
        decreases shape@.len() - i,
    {
        out.push(shape[i]);
        i = i + 1;
        assert(out@ =~= shape@.subrange(from as int, i as int));
    }
    assert(out@ =~= shape@.skip(from as int));
    out
}

/// The number of rows, and the length of a row, if each group of channels of one
/// image makes up a row. `who` begins the message of an error.
pub fn group_norm_layout(shape: &[usize], groups: usize, who: &str) -> (r: Result<
    (usize, usize),
    AutodiffError,
>)
    ensures
        match r {
            Ok(layout) => group_layout(shape@, groups, who) == Ok::<_, ErrorModel>(layout),
            Err(e) => group_layout(shape@, groups, who) == Err::<(usize, usize), _>(e@),
        },
{
    if shape.len() < 2 {
        return Err(rank_mismatch(2, shape.len()));
    }
    if groups == 0 {
        return Err(AutodiffError::InvalidArgument(joined(who, ": groups must be non-zero")));
    }
    if shape[1] % groups != 0 {
        return Err(
            AutodiffError::InvalidArgument(
                followed_by(
                    followed_by_count(
                        followed_by(
                            followed_by_count(joined(who, ": num_channels ("), shape[1]),
                            ") must be divisible by groups (",
                        ),
                        groups,
                    ),
                    ")",
                ),
            ),
        );
    }
    let channels: usize = shape[1] / groups;
    let spatial: Vec<usize> = tail(shape, 2);
    if shape[0] == 0 || channels == 0 || has_zero(spatial.as_slice()) {
        return Ok((shape[0], 0));
    }
    let size: usize = match checked_product(spatial.as_slice()) {
        Some(size) => size,
        None => {
            return Err(overflow());
        },
    };
    let hidden: usize = match channels.checked_mul(size) {
        Some(hidden) => hidden,
        None => {
            return Err(overflow());
        },
    };
    match shape[0].checked_mul(groups) {
        Some(rows) => Ok((rows, hidden)),
        None => Err(overflow()),
    }
}

proof fn count_of_concatenation(a: Seq<usize>, b: Seq<usize>)
    ensures
        count(a + b) == count(a) * count(b),
    decreases b.len(),
{
    if b.len() == 0 {
        assert(a + b =~= a);
        assert(count(b) == 1);
        assert(count(a) * 1 == count(a));
    } else {
        assert((a + b).last() == b.last());
        count_of_concatenation(a, b.drop_last());
        assert((a + b).drop_last() =~= a + b.drop_last());
        let x = count(a) as int;
        let y = count(b.drop_last()) as int;
        let z = b.last() as int;
        assert((x * y) * z == x * (y * z)) by (nonlinear_arith);
    }
}

proof fn offset_of_concatenation(a: Seq<usize>, b: Seq<usize>, i: Seq<usize>, j: Seq<usize>)
    requires
        i.len() == a.len(),
        j.len() == b.len(),
    ensures
        offset(a + b, i + j) == offset(a, i) * count(b) + offset(b, j),
    decreases b.len(),
{
    if b.len() == 0 {
        assert(a + b =~= a);
        assert(i + j =~= i);
        assert(count(b) == 1);
        assert(offset(a, i) * 1 == offset(a, i));
    } else {
        assert((a + b).last() == b.last());
        assert((i + j).last() == j.last());
        offset_of_concatenation(a, b.drop_last(), i, j.drop_last());
        assert((a + b).drop_last() =~= a + b.drop_last());
        assert((i + j).drop_last() =~= i + j.drop_last());
        let x = offset(a, i) as int;
        let y = count(b.drop_last()) as int;
        let z = b.last() as int;
        let w = offset(b.drop_last(), j.drop_last()) as int;
        assert((x * y + w) * z == x * (y * z) + w * z) by (nonlinear_arith);
    }
}

proof fn count_with_zero(dims: Seq<usize>)
    requires
        dims.contains(0),
    ensures
        count(dims) == 0,
    decreases dims.len(),
{
    if dims.last() != 0 {
        let i = dims.index_of(0);
        assert(dims.drop_last()[i] == 0);
        count_with_zero(dims.drop_last());
    }
    let x = count(dims.drop_last()) as int;
    assert(x * 0 == 0);
    assert(0 * (dims.last() as int) == 0);
}

proof fn count_of_pair(n: usize, c: usize)
    ensures
        count(seq![n, c]) == n * c,
{
    assert(seq![n, c].drop_last() =~= seq![n]);
    assert(seq![n].drop_last() =~= Seq::<usize>::empty());
    assert(count(Seq::<usize>::empty()) == 1);
    assert(count(seq![n]) == 1 * n);
}

/// The rows of groups hold all elements.
pub proof fn group_rows_hold_all_elements(shape: Seq<usize>, groups: usize, who: &str)
    ensures
        group_layout(shape, groups, who) matches Ok((rows, hidden)) ==> rows * hidden == count(
            shape,
        ),
{
    if group_layout(shape, groups, who) is Ok {
        let spatial = shape.skip(2);
        let n = shape[0] as int;
        let channels = shape[1] as int / groups as int;
        let size = count(spatial) as int;
        assert(shape =~= seq![shape[0], shape[1]] + spatial);
        count_of_concatenation(seq![shape[0], shape[1]], spatial);
        count_of_pair(shape[0], shape[1]);
        lemma_fundamental_div_mod(shape[1] as int, groups as int);
        if shape[0] == 0 || channels == 0 || spatial.contains(0) {
            if spatial.contains(0) {
                count_with_zero(spatial);
            }
            assert(groups as int * 0 == 0);
            assert((n * shape[1]) * size == 0) by (nonlinear_arith)
                requires
                    n == 0 || shape[1] == 0 || size == 0,
            ;
            assert(shape[0] * 0 == 0);
        } else {
            assert((n * groups) * (channels * size) == (n * (groups * channels)) * size)
                by (nonlinear_arith);
        }
    }
}

/// Going through the rows of groups is going through the elements in their own
/// order: the element of image `index[0]`, channel `index[1]` and the given place
/// stands in the row of its group.
pub proof fn group_rows_keep_the_order(
    shape: Seq<usize>,
    groups: usize,
    who: &str,
    index: Seq<usize>,
)
    requires
        in_bounds(shape, index),
        group_layout(shape, groups, who) is Ok,
    ensures
        ({
            let (rows, hidden) = group_layout(shape, groups, who)->Ok_0;
            let channels = shape[1] as int / groups as int;
            let spatial = shape.skip(2);
            offset(shape, index) == (index[0] * groups + index[1] as int / channels) * hidden + ((
            index[1] as int % channels) * count(spatial) + offset(spatial, index.skip(2)))
        }),
{
    let (rows, hidden) = group_layout(shape, groups, who)->Ok_0;
    let spatial = shape.skip(2);
    let place = index.skip(2);
    let lead = seq![shape[0], shape[1]];
    let front = seq![index[0], index[1]];
    assert(shape =~= lead + spatial);
    assert(index =~= front + place);
    offset_of_concatenation(lead, spatial, front, place);
    assert(offset(lead, front) == index[0] * shape[1] + index[1]) by {
        assert(lead.drop_last() =~= seq![shape[0]]);
        assert(front.drop_last() =~= seq![index[0]]);
        assert(seq![shape[0]].drop_last() =~= Seq::<usize>::empty());
        assert(seq![index[0]].drop_last() =~= Seq::<usize>::empty());
        assert(offset(Seq::<usize>::empty(), Seq::<usize>::empty()) == 0);
        assert(offset(seq![shape[0]], seq![index[0]]) == 0 * shape[0] + index[0]);
    }
    let n = index[0] as int;
    let c = index[1] as int;
    let g = groups as int;
    let channels = shape[1] as int / g;
    let size = count(spatial) as int;
    lemma_fundamental_div_mod(shape[1] as int, g);
    assert(index[0] < shape[0] && index[1] < shape[1]);
    assert(!spatial.contains(0)) by {
        if spatial.contains(0) {
            let i = spatial.index_of(0);
            assert(index[i + 2] < shape[i + 2]);
        }
    }
    assert(channels > 0) by {
        assert(g * 0 == 0);
    }
    lemma_fundamental_div_mod(c, channels);
    let q = c / channels;
    let m = c % channels;
    assert((n * (g * channels) + (channels * q + m)) * size == (n * g + q) * (channels * size) + m
        * size) by (nonlinear_arith);
}

/// The tensor whose rows are normalized.
pub open spec fn grouped<S>(input: TensorModel<S>, layout: (usize, usize)) -> TensorModel<S> {
    TensorModel { shape: seq![layout.0, layout.1], data: input.data }
}

fn rows_of<S: Copy>(input: &Tensor<S>, rows: usize, hidden: usize) -> (r: Tensor<S>)
    requires
        rows * hidden == count(input@.shape),
    ensures
        r@ == grouped(input@, (rows, hidden)),
        count(input@.shape) == input@.data.len(),
        countable(input@.shape),
{
    let shape: [usize; 2] = [rows, hidden];
    let data: &[S] = input.as_slice();
    proof {
        assert(shape@ =~= seq![rows, hidden]);
        count_of_pair(rows, hidden);
        assert(shape@.drop_last() =~= seq![rows]);
        assert(seq![rows].drop_last() =~= Seq::<usize>::empty());
        assert(count(Seq::<usize>::empty()) == 1);
        assert(countable(Seq::<usize>::empty()));
        assert(count(seq![rows]) == 1 * rows);
        assert(countable(seq![rows]));
        assert(countable(shape@));
    }
    with_shape(&shape, copied(data))
}

/// What a normalized tensor becomes when it gets the shape of the input back.
pub open spec fn regrouped<S>(
    reply: Result<Tensor<S>, AutodiffError>,
    shape: Seq<usize>,
) -> Result<TensorModel<S>, ErrorModel> {
    match reply {
        Err(e) => Err(e@),
        Ok(value) => tensor_of(value@.data, shape),
    }
}

fn normalize_groups<S: Real, L: FnOnce(&Tensor<S>, S) -> Result<Tensor<S>, AutodiffError>>(
    input: &Tensor<S>,
    groups: usize,
    eps: S,
    who: &str,
    layer_norm: L,
) -> (r: Result<Tensor<S>, AutodiffError>)
    requires
        forall|t: &Tensor<S>| call_requires(layer_norm, (t, eps)),
    ensures
        match group_layout(input@.shape, groups, who) {
            Err(e) => outcome(r) == Err::<TensorModel<S>, _>(e),
            Ok(layout) => exists|t: &Tensor<S>, reply: Result<Tensor<S>, AutodiffError>|
                {
                    &&& t@ == grouped(input@, layout)
                    &&& #[trigger] call_ensures(layer_norm, (t, eps), reply)
                    &&& outcome(r) == regrouped(reply, input@.shape)
                },
        },
{
    let (rows, hidden): (usize, usize) = match group_norm_layout(input.shape(), groups, who) {
        Err(e) => {
            return Err(e);
        },
        Ok((rows, hidden)) => (rows, hidden),
    };
    proof {
        group_rows_hold_all_elements(input@.shape, groups, who);
    }
    let flat: Tensor<S> = rows_of(input, rows, hidden);
    match layer_norm(&flat, eps) {
        Err(e) => Err(e),
        Ok(value) => Tensor::new(copied(value.as_slice()), input.shape()),
    }
}

/// Normalizes groups of channels with a backend, or on the host where the backend
/// does not offer it.
pub fn group_norm_forward_host<
    S: Real,
    B: FnOnce(&Tensor<S>, S) -> Result<Tensor<S>, BackendError>,
    H: FnOnce(&Tensor<S>, S, usize, usize) -> Tensor<S>,
>(input: &Tensor<S>, groups: usize, eps: S, who: &str, backend: B, host: H) -> (r: Result<
    Tensor<S>,
    AutodiffError,
>)
    requires
        forall|t: &Tensor<S>| call_requires(backend, (t, eps)),
        forall|t: &Tensor<S>, rows: usize, hidden: usize|
            call_requires(host, (t, eps, rows, hidden)),
    ensures
        match group_layout(input@.shape, groups, who) {
            Err(e) => outcome(r) == Err::<TensorModel<S>, _>(e),
            Ok(layout) => exists|
                t: &Tensor<S>,
                reply: Result<Tensor<S>, BackendError>,
                fallback: TensorModel<S>,
            |
                {
                    &&& t@ == grouped(input@, layout)
                    &&& #[trigger] call_ensures(backend, (t, eps), reply)
                    &&& is_unsupported(reply) ==> exists|value: Tensor<S>|
                        #[trigger] call_ensures(host, (t, eps, layout.0, layout.1), value)
                            && value@ == fallback
                    &&& outcome(r) == match #[trigger] settled(
                        grouped(input@, layout).shape,
                        reply,
                        fallback,
                    ) {
                        Err(e) => Err(e),
                        Ok(value) => Ok(
                            TensorModel { shape: input@.shape, data: value.data },
                        ),
                    }
                },
        },
{
    let (rows, hidden): (usize, usize) = match group_norm_layout(input.shape(), groups, who) {
        Err(e) => {
            return Err(e);
        },
        Ok((rows, hidden)) => (rows, hidden),
    };
    proof {
        group_rows_hold_all_elements(input@.shape, groups, who);
    }
    let flat: Tensor<S> = rows_of(input, rows, hidden);
    let reply: Result<Tensor<S>, BackendError> = backend(&flat, eps);
    let ghost replied = reply;
    let ghost mut fallback: TensorModel<S> = input@;
    let settlement: Result<Tensor<S>, AutodiffError> = match reply {
        Ok(value) => with_expected_shape(value, flat.shape()),
        Err(BackendError::Unsupported(_)) => {
            let value: Tensor<S> = host(&flat, eps, rows, hidden);
            proof {
                fallback = value@;
            }
            with_expected_shape(value, flat.shape())
        },
        Err(e) => Err(AutodiffError::Backend(e)),
    };
    assert(outcome(settlement) == settled(
        grouped(input@, (rows, hidden)).shape,
        replied,
        fallback,
    ));
    match settlement {
        Err(e) => Err(e),
        Ok(value) => {
            let data: Vec<S> = copied(value.as_slice());
            proof {
                count_of_pair(rows, hidden);
            }
            Ok(with_shape(input.shape(), data))
        },
    }
}

/// A [`GroupNorm`] layer as a mathematical value.
pub struct GroupNormModel<S> {
    pub groups: usize,
    pub eps: S,
}

/// Normalization over groups of channels.
#[derive(Debug, Clone, Copy)]
pub struct GroupNorm<S> {
    groups: usize,
    eps: S,
}

impl<S> View for GroupNorm<S> {
    type V = GroupNormModel<S>;

    closed spec fn view(&self) -> GroupNormModel<S> {
        GroupNormModel { groups: self.groups, eps: self.eps }
    }
}

impl<S: Real> GroupNorm<S> {
    pub fn new(groups: usize, eps: S) -> (r: Result<GroupNorm<S>, AutodiffError>)
        ensures
            match r {
                Ok(layer) => {
                    &&& non_negative(eps)
                    &&& groups != 0
                    &&& layer@ == (GroupNormModel { groups, eps })
                },
                Err(e) => if !non_negative(eps) {
                    e@ == eps_refused("GroupNorm::new", eps)
                } else {
                    &&& groups == 0
                    &&& e@ == refused_by("GroupNorm::new", ": groups must be non-zero")
                },
            },
    {
        match validate_eps(eps, "GroupNorm::new") {
            Err(e) => Err(e),
            Ok(_) => if groups == 0 {
                Err(
                    AutodiffError::InvalidArgument(
                        joined("GroupNorm::new", ": groups must be non-zero"),
                    ),
                )
            } else {
                Ok(GroupNorm { groups, eps })
            },
        }
    }

    pub fn groups(&self) -> (r: usize)
        ensures
            r == self@.groups,
    {
        self.groups
    }

    pub fn eps(&self) -> (r: S)
        ensures
            r == self@.eps,
    {
        self.eps
    }

    /// Normalizes each group of channels of each image. `layer_norm` normalizes the
    /// rows of a matrix.
    pub fn forward<L: FnOnce(&Tensor<S>, S) -> Result<Tensor<S>, AutodiffError>>(
        &self,
        input: &Tensor<S>,
        layer_norm: L,
    ) -> (r: Result<Tensor<S>, AutodiffError>)
        requires
            forall|t: &Tensor<S>| call_requires(layer_norm, (t, self@.eps)),
        ensures
            match group_layout(input@.shape, self@.groups, "GroupNorm::forward") {
                Err(e) => outcome(r) == Err::<TensorModel<S>, _>(e),
                Ok(layout) => exists|t: &Tensor<S>, reply: Result<Tensor<S>, AutodiffError>|
                    {
                        &&& t@ == grouped(input@, layout)
                        &&& #[trigger] call_ensures(layer_norm, (t, self@.eps), reply)
                        &&& outcome(r) == regrouped(reply, input@.shape)
                    },
            },
    {
        normalize_groups(input, self.groups(), self.eps(), "GroupNorm::forward", layer_norm)
    }
}

/// Normalization over each channel.
#[derive(Debug, Clone, Copy)]
pub struct InstanceNorm<S> {
    eps: S,
}

impl<S> View for InstanceNorm<S> {
    type V = S;

    closed spec fn view(&self) -> S {
        self.eps
    }
}

impl<S: Real> InstanceNorm<S> {
    pub fn new(eps: S) -> (r: Result<InstanceNorm<S>, AutodiffError>)
        ensures
            match r {
                Ok(layer) => non_negative(eps) && layer@ == eps,
                Err(e) => !non_negative(eps) && e@ == eps_refused("InstanceNorm::new", eps),
            },
    {
        match validate_eps(eps, "InstanceNorm::new") {
            Err(e) => Err(e),
            Ok(_) => Ok(InstanceNorm { eps }),
        }
    }

    pub fn eps(&self) -> (r: S)
        ensures
            r == self@,
    {
        self.eps
    }

    /// Normalizes each channel of each image. `layer_norm` normalizes the rows of a
    /// matrix.
    pub fn forward<L: FnOnce(&Tensor<S>, S) -> Result<Tensor<S>, AutodiffError>>(
        &self,
        input: &Tensor<S>,
        layer_norm: L,
    ) -> (r: Result<Tensor<S>, AutodiffError>)
        requires
            forall|t: &Tensor<S>| call_requires(layer_norm, (t, self@)),
        ensures
            if input@.shape.len() < 3 {
                outcome(r) == Err::<TensorModel<S>, _>(
                    ErrorModel::RankMismatch {
                        expected: 3,
                        actual: input@.shape.len() as usize,
                    },
                )
            } else if input@.shape[1] == 0 {
                outcome(r) == Ok::<_, ErrorModel>(input@)
            } else {
                match group_layout(input@.shape, input@.shape[1], "InstanceNorm::forward") {
                    Err(e) => outcome(r) == Err::<TensorModel<S>, _>(e),
                    Ok(layout) => exists|t: &Tensor<S>, reply: Result<Tensor<S>, AutodiffError>|
                        {
                            &&& t@ == grouped(input@, layout)
                            &&& #[trigger] call_ensures(layer_norm, (t, self@), reply)
                            &&& outcome(r) == regrouped(reply, input@.shape)
                        },
                }
            },
    {
        if input.rank() < 3 {
            return Err(rank_mismatch(3, input.rank()));
        }
        let channels: usize = input.shape()[1];
        if channels == 0 {
            return Ok(input.duplicate());
        }
        normalize_groups(input, channels, self.eps(), "InstanceNorm::forward", layer_norm)
    }
}

impl<S: Real> Module<S> for GroupNorm<S> {
    open spec fn parameters(&self) -> Map<Seq<char>, TensorModel<S>> {
        Map::empty()
    }

    open spec fn accepts(&self, name: Seq<char>, shape: Seq<usize>) -> bool {
        false
    }

    open spec fn may_refuse(
        &self,
        name: Seq<char>,
        value: TensorModel<S>,
        error: ErrorModel,
    ) -> bool {
        error == unknown_parameter(name)
    }

    open spec fn reliable(&self) -> bool {
        true
    }

    open spec fn refusal(&self, name: Seq<char>, shape: Seq<usize>) -> ErrorModel {
        unknown_parameter(name)
    }

    open spec fn steady(&self) -> bool {
        true
    }

    open spec fn recorded(&self) -> bool {
        false
    }

    fn named_parameters(&self) -> (r: Vec<(String, &Tensor<S>)>) {
        no_parameters()
    }

    fn set_parameter(&mut self, name: &str, _value: Tensor<S>) -> (r: Result<(), AutodiffError>)
        ensures
            r matches Err(e) && e@ == unknown_parameter(name@),
            *final(self) == *old(self),
    {
        Err(refuse_parameter(name))
    }
}

impl<S: Real> Module<S> for InstanceNorm<S> {
    open spec fn parameters(&self) -> Map<Seq<char>, TensorModel<S>> {
        Map::empty()
    }

    open spec fn accepts(&self, name: Seq<char>, shape: Seq<usize>) -> bool {
        false
    }

    open spec fn may_refuse(
        &self,
        name: Seq<char>,
        value: TensorModel<S>,
        error: ErrorModel,
    ) -> bool {
        error == unknown_parameter(name)
    }

    open spec fn reliable(&self) -> bool {
        true
    }

    open spec fn refusal(&self, name: Seq<char>, shape: Seq<usize>) -> ErrorModel {
        unknown_parameter(name)
    }

    open spec fn steady(&self) -> bool {
        true
    }

    open spec fn recorded(&self) -> bool {
        false
    }

    fn named_parameters(&self) -> (r: Vec<(String, &Tensor<S>)>) {
        no_parameters()
    }

    fn set_parameter(&mut self, name: &str, _value: Tensor<S>) -> (r: Result<(), AutodiffError>)
        ensures
            r matches Err(e) && e@ == unknown_parameter(name@),
            *final(self) == *old(self),
    {
        Err(refuse_parameter(name))
    }
}

/// With one group for each channel, a row is a channel: normalization over groups
/// is then normalization over each channel.
pub proof fn one_group_per_channel_is_a_channel_per_row(shape: Seq<usize>, who: &str)
    requires
        shape.len() >= 2,
        countable(shape),
        count(shape) > 0,
    ensures
        group_layout(shape, shape[1], who) == Ok::<_, ErrorModel>(
            ((shape[0] * shape[1]) as usize, count(shape.skip(2)) as usize),
        ),
{
    let spatial = shape.skip(2);
    let lead = seq![shape[0], shape[1]];
    assert(shape =~= lead + spatial);
    count_of_concatenation(lead, spatial);
    count_of_pair(shape[0], shape[1]);
    if spatial.contains(0) {
        count_with_zero(spatial);
    }
    let n = shape[0] as int;
    let c = shape[1] as int;
    let size = count(spatial) as int;
    assert(n > 0 && c > 0 && size > 0) by (nonlinear_arith)
        requires
            n * c * size > 0,
            n >= 0,
            c >= 0,
            size >= 0,
    ;
    assert(c / c == 1 && c % c == 0) by (nonlinear_arith)
        requires
            c > 0,
    ;
    assert(size <= n * c * size && 0 < n * c <= n * c * size) by (nonlinear_arith)
        requires
            n > 0,
            c > 0,
            size > 0,
    ;
    countable_suffix(lead, spatial);
}

/// Normalization over each channel is normalization over as many groups as there
/// are channels: both give the same rows to be normalized, or the same error.
pub proof fn instance_norm_is_group_norm_by_channels(shape: Seq<usize>)
    requires
        shape.len() >= 3,
        shape[1] != 0,
    ensures
        group_layout(shape, shape[1], "InstanceNorm::forward") == group_layout(
            shape,
            shape[1],
            "GroupNorm::forward",
        ),
{
    let c = shape[1] as int;
    assert(c % c == 0) by (nonlinear_arith)
        requires
            c > 0,
    ;
}

/// With a single group, a row is an image: normalization over groups is then
/// normalization over all axes but the first.
pub proof fn one_group_is_an_image_per_row(shape: Seq<usize>, who: &str)
    requires
        shape.len() >= 2,
        countable(shape),
        count(shape) > 0,
    ensures
        group_layout(shape, 1, who) == Ok::<_, ErrorModel>(
            (shape[0], count(shape.skip(1)) as usize),
        ),
{
    let spatial = shape.skip(2);
    let lead = seq![shape[0], shape[1]];
    assert(shape =~= lead + spatial);
    count_of_concatenation(lead, spatial);
    count_of_pair(shape[0], shape[1]);
    if spatial.contains(0) {
        count_with_zero(spatial);
    }
    let n = shape[0] as int;
    let c = shape[1] as int;
    let size = count(spatial) as int;
    assert(n > 0 && c > 0 && size > 0) by (nonlinear_arith)
        requires
            n * c * size > 0,
            n >= 0,
            c >= 0,
            size >= 0,
    ;
    assert(c * size <= n * c * size && 0 < n * c) by (nonlinear_arith)
        requires
            n > 0,
            c > 0,
            size > 0,
    ;
    countable_suffix(lead, spatial);
    assert(shape.skip(1) =~= seq![shape[1]] + spatial);
    count_of_concatenation(seq![shape[1]], spatial);
    assert(seq![shape[1]].drop_last() =~= Seq::<usize>::empty());
    assert(count(Seq::<usize>::empty()) == 1);
    assert(count(seq![shape[1]]) == 1 * shape[1]);
    assert(c / 1 == c && c % 1 == 0);
    assert(n * 1 == n);
}

proof fn countable_suffix(a: Seq<usize>, b: Seq<usize>)
    requires
        countable(a + b),
        count(a) > 0,
    ensures
        countable(b),
    decreases b.len(),
{
    count_of_concatenation(a, b);
    assert(count(b) <= count(a) * count(b)) by (nonlinear_arith)
        requires
            count(a) > 0,
    ;
    if b.len() > 0 {
        assert((a + b).drop_last() =~= a + b.drop_last());
        countable_suffix(a, b.drop_last());
    }
}

} // verus!
