//! Padding images with zeros.
use crate::backend::{outcome, settled, with_expected_shape};
use crate::error::{AutodiffError, BackendError, ErrorModel, ShapeError, rank_mismatch};
use crate::layout::{join, join_bound, join_splits, split_bound, split_joins};
use crate::number::{Real, zero};
use crate::tensor::{
    Tensor, TensorModel, checked_product, count, countable, in_bounds, offset,
    offset_is_below_count, with_shape,
};
use vstd::prelude::*;

verus! {

/// How far each dimension grows at its front and at its back: the last two by the
/// widths `[left, right, top, bottom]`, the others not at all.
pub open spec fn pads_of(rank: nat, padding: Seq<usize>) -> Seq<(usize, usize)> {
    Seq::new((rank - 2) as nat, |i: int| (0usize, 0usize)).push((padding[2], padding[3])).push(
        (padding[0], padding[1]),
    )
}

/// How far each dimension grows at its front and at its back. Only images with
/// channels, and batches of them, can be padded.
pub fn build_pads(rank: usize, padding: [usize; 4]) -> (r: Result<
    Vec<(usize, usize)>,
    AutodiffError,
>)
    ensures
        match r {
            Ok(pads) => (rank == 3 || rank == 4) && pads@ == pads_of(rank as nat, padding@),
            Err(e) => rank != 3 && rank != 4 && e@ == (ErrorModel::RankMismatch {
                expected: 4,
                actual: rank,
            }),
        },
{
    if rank != 3 && rank != 4 {
        return Err(rank_mismatch(4, rank));
    }
    let mut pads: Vec<(usize, usize)> = Vec::new();
    let mut i: usize = 0;
    while i < rank - 2
        invariant
            rank == 3 || rank == 4,
            i <= rank - 2,
            pads@ == Seq::new(i as nat, |k: int| (0usize, 0usize)),
        decreases rank - i,
    {
        pads.push((0, 0));
        i = i + 1;
        assert(pads@ =~= Seq::new(i as nat, |k: int| (0usize, 0usize)));
    }
    pads.push((padding[2], padding[3]));
    pads.push((padding[0], padding[1]));
    assert(pads@ =~= pads_of(rank as nat, padding@));
    Ok(pads)
}

/// The shape after padding.
pub open spec fn padded_shape(shape: Seq<usize>, pads: Seq<(usize, usize)>) -> Result<
    Seq<usize>,
    ErrorModel,
> {
    let grown = Seq::new(
        shape.len(),
        |i: int| (shape[i] + pads[i].0 + pads[i].1) as usize,
    );
    if exists|i: int|
        0 <= i < shape.len() && (#[trigger] shape[i]) + pads[i].0 + pads[i].1 > usize::MAX {
        Err(ErrorModel::ElementCountOverflow)
    } else if !countable(grown) {
        Err(ErrorModel::ElementCountOverflow)
    } else {
        Ok(grown)
    }
}

fn pad_out_shape(shape: &[usize], pads: &Vec<(usize, usize)>) -> (r: Result<
    Vec<usize>,
    AutodiffError,
>)
    requires
        pads@.len() == shape@.len(),
    ensures
        match r {
            Ok(grown) => padded_shape(shape@, pads@) == Ok::<Seq<usize>, ErrorModel>(grown@),
            Err(e) => padded_shape(shape@, pads@) == Err::<Seq<usize>, _>(e@),
        },
{
    let mut out: Vec<usize> = Vec::new();
    let mut i: usize = 0;
    while i < shape.len()
        invariant
            pads@.len() == shape@.len(),
            i <= shape@.len(),
            out@.len() == i,
            forall|k: int|
                0 <= k < i ==> #[trigger] shape@[k] + pads@[k].0 + pads@[k].1 == out@[k],
        decreases shape@.len() - i,
    {
        let (before, after) = pads[i];
        match shape[i].checked_add(before) {
            None => {
                assert(shape@[i as int] + pads@[i as int].0 + pads@[i as int].1 > usize::MAX);
                return Err(AutodiffError::Shape(ShapeError::ElementCountOverflow));
            },
            Some(front) => match front.checked_add(after) {
                None => {
                    assert(shape@[i as int] + pads@[i as int].0 + pads@[i as int].1 > usize::MAX);
                    return Err(AutodiffError::Shape(ShapeError::ElementCountOverflow));
                },
                Some(size) => {
                    out.push(size);
                },
            },
        }
        i = i + 1;
    }
    assert(out@ =~= Seq::new(
        shape@.len(),
        |k: int| (shape@[k] + pads@[k].0 + pads@[k].1) as usize,
    ));
    if checked_product(out.as_slice()).is_none() {
        return Err(AutodiffError::Shape(ShapeError::ElementCountOverflow));
    }
    Ok(out)
}

/// The element at `position` of an image of `height` rows and `width` columns
/// that `input` has been put into, `top` rows down and `left` columns in.
pub open spec fn padded_element<S: Real>(
    input: TensorModel<S>,
    top: int,
    left: int,
    height: int,
    width: int,
    position: int,
) -> S {
    let n = input.shape.len() as int;
    let (h, w) = (input.shape[n - 2] as int, input.shape[n - 1] as int);
    let x = position % width - left;
    let y = position / width % height - top;
    let image = position / width / height;
    if 0 <= y < h && 0 <= x < w {
        input.data[join(join(image, h, y), w, x)]
    } else {
        zero()
    }
}

/// The result of [`ZeroPad2d::forward`].
pub open spec fn padded<S: Real>(input: TensorModel<S>, padding: Seq<usize>) -> Result<
    TensorModel<S>,
    ErrorModel,
> {
    let n = input.shape.len();
    if n != 3 && n != 4 {
        Err(ErrorModel::RankMismatch { expected: 4, actual: n as usize })
    } else {
        match padded_shape(input.shape, pads_of(n, padding)) {
            Err(e) => Err(e),
            Ok(shape) => Ok(
                TensorModel {
                    shape,
                    data: Seq::new(
                        count(shape),
                        |k: int|
                            padded_element(
                                input,
                                padding[2] as int,
                                padding[0] as int,
                                shape[n - 2] as int,
                                shape[n - 1] as int,
                                k,
                            ),
                    ),
                },
            ),
        }
    }
}

/// The number of images in a batch: the elements of all dimensions but two.
pub open spec fn images(shape: Seq<usize>) -> nat {
    count(shape.take(shape.len() - 2))
}

proof fn image_area(shape: Seq<usize>)
    requires
        shape.len() >= 2,
    ensures
        count(shape) == images(shape) * shape[shape.len() - 2] * shape[shape.len() - 1],
{
    let n = shape.len() as int;
    assert(shape.drop_last().drop_last() =~= shape.take(n - 2));
    assert(count(shape.drop_last()) == images(shape) * (shape[n - 2] as nat));
}

/// Surrounds images with zeros.
#[derive(Debug, Clone, Copy, PartialEq, Eq)]
pub struct ZeroPad2d {
    padding: [usize; 4],
}

impl ZeroPad2d {
    /// The widths `[left, right, top, bottom]`.
    pub closed spec fn widths(&self) -> Seq<usize> {
        self.padding@
    }

    /// Pads by the widths `[left, right, top, bottom]`.
    pub fn new(padding: [usize; 4]) -> (r: ZeroPad2d)
        ensures
            r.widths() == padding@,
    {
        ZeroPad2d { padding }
    }

    /// Pads by the same width on every side.
    pub fn uniform(p: usize) -> (r: ZeroPad2d)
        ensures
            r.widths() == seq![p, p, p, p],
    {
        let r = ZeroPad2d { padding: [p, p, p, p] };
        assert(r.widths() =~= seq![p, p, p, p]);
        r
    }

    /// The widths `[left, right, top, bottom]`.
    pub fn padding(&self) -> (r: [usize; 4])
        ensures
            r@ == self.widths(),
    {
        self.padding
    }

    pub fn forward<S: Real>(&self, input: &Tensor<S>) -> (r: Result<Tensor<S>, AutodiffError>)
        ensures
            match r {
                Ok(output) => padded(input@, self.widths()) == Ok::<TensorModel<S>, ErrorModel>(
                    output@,
                ),
                Err(e) => padded(input@, self.widths()) == Err::<TensorModel<S>, _>(e@),
            },
    {
        let rank: usize = input.rank();
        let pads: Vec<(usize, usize)> = match build_pads(rank, self.padding) {
            Err(e) => {
                return Err(e);
            },
            Ok(pads) => pads,
        };
        let shape: Vec<usize> = match pad_out_shape(input.shape(), &pads) {
            Err(e) => {
                return Err(e);
            },
            Ok(shape) => shape,
        };
        let data: &[S] = input.as_slice();
        let total: usize = match checked_product(shape.as_slice()) {
            None => {
                return Err(AutodiffError::Shape(ShapeError::ElementCountOverflow));
            },
            Some(total) => total,
        };
        let (h, w): (usize, usize) = (input.shape()[rank - 2], input.shape()[rank - 1]);
        let (height, width): (usize, usize) = (shape[rank - 2], shape[rank - 1]);
        let (top, left): (usize, usize) = (self.padding[2], self.padding[0]);
        let ghost n = images(input@.shape);
        proof {
            image_area(input@.shape);
            image_area(shape@);
            assert(shape@.take(rank - 2) =~= input@.shape.take(rank - 2));
        }
        assert(data.len() <= usize::MAX);
        let mut out: Vec<S> = Vec::new();
        let mut k: usize = 0;
        while k < total
            invariant
                n == images(input@.shape),
                total == n * height * width,
                data@.len() == n * h * w,
                data@.len() <= usize::MAX,
                data@ == input@.data,
                rank >= 3,
                rank == input@.shape.len(),
                h == input@.shape[rank - 2],
                w == input@.shape[rank - 1],
                h + top <= height,
                w + left <= width,
                k <= total,
                out@.len() == k,
                forall|i: int|
                    0 <= i < k ==> #[trigger] out@[i] == padded_element(
                        input@,
                        top as int,
                        left as int,
                        height as int,
                        width as int,
                        i,
                    ),
            decreases total - k,
        {
            proof {
                assert(n * height >= 0) by (nonlinear_arith);
                split_bound(k as int, n * height, width as int);
                split_bound(k as int / width as int, n as int, height as int);
            }
            let x: usize = k % width;
            let y: usize = k / width % height;
            let image: usize = k / width / height;
            if top <= y && y - top < h && left <= x && x - left < w {
                proof {
                    join_bound(image as int, n as int, h as int, y - top);
                    join_bound(
                        join(image as int, h as int, y - top),
                        n * h,
                        w as int,
                        x - left,
                    );
                }
                let row: usize = image * h + (y - top);
                out.push(data[row * w + (x - left)]);
            } else {
                out.push(S::literal(0, 0));
            }
            k = k + 1;
        }
        let output: Tensor<S> = with_shape(shape.as_slice(), out);
        assert(output@ =~= padded(input@, self.widths())->Ok_0);
        Ok(output)
    }
}

/// What padding ends with where a backend gave the reply and the host pads if the
/// backend does not.
pub open spec fn padded_by_backend<S: Real>(
    input: TensorModel<S>,
    padding: Seq<usize>,
    reply: Result<Tensor<S>, BackendError>,
) -> Result<TensorModel<S>, ErrorModel> {
    match padded(input, padding) {
        Err(e) => Err(e),
        Ok(output) => settled(output.shape, reply, output),
    }
}

impl ZeroPad2d {
    /// Pads with a backend, or on the host where the backend does not offer it.
    pub fn forward_host<
        S: Real,
        B: FnOnce(&Tensor<S>, &Vec<(usize, usize)>, S) -> Result<Tensor<S>, BackendError>,
    >(&self, input: &Tensor<S>, backend: B) -> (r: Result<Tensor<S>, AutodiffError>)
        requires
            forall|pads: &Vec<(usize, usize)>| call_requires(backend, (input, pads, zero::<S>())),
        ensures
            match padded(input@, self.widths()) {
                Err(e) => outcome(r) == Err::<TensorModel<S>, _>(e),
                Ok(_) => exists|
                    pads: &Vec<(usize, usize)>,
                    reply: Result<Tensor<S>, BackendError>,
                |
                    {
                        &&& pads@ == pads_of(input@.shape.len(), self.widths())
                        &&& #[trigger] call_ensures(backend, (input, pads, zero::<S>()), reply)
                        &&& outcome(r) == padded_by_backend(input@, self.widths(), reply)
                    },
            },
    {
        let pads: Vec<(usize, usize)> = match build_pads(input.rank(), self.padding) {
            Err(e) => {
                return Err(e);
            },
            Ok(pads) => pads,
        };
        let shape: Vec<usize> = match pad_out_shape(input.shape(), &pads) {
            Err(e) => {
                return Err(e);
            },
            Ok(shape) => shape,
        };
        let fill: S = S::literal(0, 0);
        assert(fill == zero::<S>());
        match backend(input, &pads, fill) {
            Ok(value) => with_expected_shape(value, shape.as_slice()),
            Err(BackendError::Unsupported(_)) => self.forward(input),
            Err(e) => Err(AutodiffError::Backend(e)),
        }
    }
}

/// Padding keeps every pixel, moved down by the width at the top and in by the
/// width at the left.
pub proof fn padding_keeps_the_image<S: Real>(
    input: TensorModel<S>,
    padding: Seq<usize>,
    index: Seq<usize>,
    y: usize,
    x: usize,
)
    requires
        input.wf(),
        padding.len() == 4,
        padded(input, padding) is Ok,
        in_bounds(input.shape, index.push(y).push(x)),
    ensures
        padded(input, padding)->Ok_0.at(
            index.push((y + padding[2]) as usize).push((x + padding[0]) as usize),
        ) == input.at(index.push(y).push(x)),
{
    let n = input.shape.len() as int;
    let out = padded(input, padding)->Ok_0;
    let pads = pads_of(n as nat, padding);
    let lead = input.shape.take(n - 2);
    let (h, w) = (input.shape[n - 2] as int, input.shape[n - 1] as int);
    let (height, width) = (out.shape[n - 2] as int, out.shape[n - 1] as int);
    let from = index.push(y).push(x);
    assert(from[n - 2] == y && from[n - 1] == x);
    assert(height == input.shape[n - 2] + padding[2] + padding[3]);
    assert(width == input.shape[n - 1] + padding[0] + padding[1]);
    let (row, column) = ((y + padding[2]) as usize, (x + padding[0]) as usize);
    let to = index.push(row).push(column);
    assert forall|k: int| 0 <= k < n - 2 implies out.shape[k] == lead[k] by {
        assert(pads[k] == (0usize, 0usize));
    }
    assert(in_bounds(out.shape, to)) by {
        assert forall|k: int| 0 <= k < n implies to[k] < out.shape[k] by {
            assert(from[k] < input.shape[k]);
            if k < n - 2 {
                assert(to[k] == from[k]);
            }
        }
    }
    offset_is_below_count(out.shape, to);
    assert(out.shape.drop_last().drop_last() =~= lead);
    assert(input.shape.drop_last().drop_last() =~= lead);
    assert(from.drop_last() =~= index.push(y));
    assert(to.drop_last() =~= index.push(row));
    assert(index.push(y).drop_last() =~= index);
    assert(index.push(row).drop_last() =~= index);
    let image = offset(lead, index) as int;
    assert(offset(input.shape.drop_last(), index.push(y)) == join(image, h, y as int));
    assert(offset(out.shape.drop_last(), index.push(row)) == join(image, height, row as int));
    join_splits(image, height, row as int);
    join_splits(join(image, height, row as int), width, column as int);
}

/// Everything around the image is zero.
pub proof fn padding_adds_zeros<S: Real>(
    input: TensorModel<S>,
    padding: Seq<usize>,
    index: Seq<usize>,
    row: usize,
    column: usize,
)
    requires
        input.wf(),
        padding.len() == 4,
        padded(input, padding) is Ok,
        in_bounds(padded(input, padding)->Ok_0.shape, index.push(row).push(column)),
        ({
            let n = input.shape.len() as int;
            ||| row < padding[2]
            ||| row >= padding[2] + input.shape[n - 2]
            ||| column < padding[0]
            ||| column >= padding[0] + input.shape[n - 1]
        }),
    ensures
        padded(input, padding)->Ok_0.at(index.push(row).push(column)) == zero::<S>(),
{
    let n = input.shape.len() as int;
    let out = padded(input, padding)->Ok_0;
    let pads = pads_of(n as nat, padding);
    let lead = out.shape.take(n - 2);
    let (height, width) = (out.shape[n - 2] as int, out.shape[n - 1] as int);
    let to = index.push(row).push(column);
    assert(to[n - 2] == row && to[n - 1] == column);
    assert(height == input.shape[n - 2] + padding[2] + padding[3]);
    assert(width == input.shape[n - 1] + padding[0] + padding[1]);
    offset_is_below_count(out.shape, to);
    assert(out.shape.drop_last().drop_last() =~= lead);
    assert(to.drop_last() =~= index.push(row));
    assert(index.push(row).drop_last() =~= index);
    let image = offset(lead, index) as int;
    assert(offset(out.shape.drop_last(), index.push(row)) == join(image, height, row as int));
    join_splits(image, height, row as int);
    join_splits(join(image, height, row as int), width, column as int);
}

/// Padding by nothing changes nothing.
pub proof fn padding_by_zero_is_identity<S: Real>(input: TensorModel<S>)
    requires
        input.wf(),
        countable(input.shape),
        input.shape.len() == 3 || input.shape.len() == 4,
    ensures
        padded(input, seq![0, 0, 0, 0]) == Ok::<TensorModel<S>, ErrorModel>(input),
{
    let padding = seq![0usize, 0usize, 0usize, 0usize];
    let n = input.shape.len() as int;
    let pads = pads_of(n as nat, padding);
    let grown = Seq::new(
        input.shape.len(),
        |i: int| (input.shape[i] + pads[i].0 + pads[i].1) as usize,
    );
    assert(grown =~= input.shape);
    let (h, w) = (input.shape[n - 2] as int, input.shape[n - 1] as int);
    image_area(input.shape);
    let images = images(input.shape) as int;
    assert forall|k: int| 0 <= k < input.data.len() implies padded_element(input, 0, 0, h, w, k)
        == input.data[k] by {
        assert(images * h >= 0) by (nonlinear_arith)
            requires
                images >= 0,
                h >= 0,
        ;
        split_bound(k, images * h, w);
        split_joins(k, w);
        split_bound(k / w, images, h);
        split_joins(k / w, h);
    }
    assert(padded(input, padding)->Ok_0.data =~= input.data);
}

} // verus!
