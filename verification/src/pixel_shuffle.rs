//! Rearranging channels into pixels, and back.
use crate::error::{AutodiffError, ErrorModel, ShapeError, invalid, refused};
use crate::layout::{
    image_count, image_offset, image_shape, join, join_bound, join_splits, split_bound, split_joins,
};
use crate::tensor::{
    Tensor, TensorModel, checked_product, count, countable, in_bounds, offset,
    offset_is_below_count, with_shape,
};
use vstd::prelude::*;

verus! {

/// The dimensions in front of the last three.
pub open spec fn leading(shape: Seq<usize>) -> Seq<usize> {
    shape.take(shape.len() - 3)
}

/// The shape that [`PixelShuffle`] gives to its result.
pub open spec fn shuffled_shape(shape: Seq<usize>, r: usize) -> Result<Seq<usize>, ErrorModel> {
    let n = shape.len() as int;
    if n < 3 {
        Err(ErrorModel::RankMismatch { expected: 3, actual: n as usize })
    } else if r * r > usize::MAX {
        Err(ErrorModel::ElementCountOverflow)
    } else if r == 0 || shape[n - 3] % ((r * r) as usize) != 0 {
        Err(ErrorModel::ShapeMismatch { lhs: seq![shape[n - 3]], rhs: seq![(r * r) as usize] })
    } else if shape[n - 2] * r > usize::MAX || shape[n - 1] * r > usize::MAX {
        Err(ErrorModel::ElementCountOverflow)
    } else {
        Ok(
            image_shape(
                leading(shape),
                (shape[n - 3] / ((r * r) as usize)) as usize,
                (shape[n - 2] * r) as usize,
                (shape[n - 1] * r) as usize,
            ),
        )
    }
}

/// The shape that [`PixelUnshuffle`] gives to its result.
pub open spec fn unshuffled_shape(shape: Seq<usize>, r: usize) -> Result<Seq<usize>, ErrorModel> {
    let n = shape.len() as int;
    if n < 3 {
        Err(ErrorModel::RankMismatch { expected: 3, actual: n as usize })
    } else if r * r > usize::MAX {
        Err(ErrorModel::ElementCountOverflow)
    } else if r == 0 || shape[n - 2] % r != 0 || shape[n - 1] % r != 0 {
        Err(ErrorModel::ShapeMismatch { lhs: seq![shape[n - 2], shape[n - 1]], rhs: seq![r] })
    } else if shape[n - 3] * (r * r) > usize::MAX {
        Err(ErrorModel::ElementCountOverflow)
    } else {
        Ok(
            image_shape(
                leading(shape),
                (shape[n - 3] * (r * r)) as usize,
                (shape[n - 2] / r) as usize,
                (shape[n - 1] / r) as usize,
            ),
        )
    }
}

fn with_image(
    shape: &[usize],
    c: usize,
    h: usize,
    w: usize,
) -> (r: Vec<usize>)
    requires
        shape@.len() >= 3,
    ensures
        r@ == image_shape(leading(shape@), c, h, w),
{
    let mut out: Vec<usize> = Vec::new();
    let n: usize = shape.len() - 3;
    let mut i: usize = 0;
    while i < n
        invariant
            i <= n,
            n + 3 == shape@.len(),
            out@ == shape@.take(i as int),
        decreases n - i,
    {
        out.push(shape[i]);
        i = i + 1;
        assert(out@ =~= shape@.take(i as int));
    }
    out.push(c);
    out.push(h);
    out.push(w);
    out
}

/// The shape of the result of [`PixelShuffle::forward`], or why there is none.
pub fn pixel_shuffle_out_shape(in_shape: &[usize], upscale_factor: usize) -> (r: Result<
    Vec<usize>,
    ShapeError,
>)
    ensures
        match r {
            Ok(shape) => shuffled_shape(in_shape@, upscale_factor) == Ok::<
                Seq<usize>,
                ErrorModel,
            >(shape@),
            Err(e) => shuffled_shape(in_shape@, upscale_factor) == Err::<Seq<usize>, _>(e@),
        },
{
    let rank: usize = in_shape.len();
    if rank < 3 {
        return Err(ShapeError::RankMismatch { expected: 3, actual: rank });
    }
    let r2: usize = match upscale_factor.checked_mul(upscale_factor) {
        None => {
            return Err(ShapeError::ElementCountOverflow);
        },
        Some(r2) => r2,
    };
    let c_in: usize = in_shape[rank - 3];
    proof {
        square_is_zero(upscale_factor as int);
    }
    if r2 == 0 || c_in % r2 != 0 {
        let lhs: Vec<usize> = vec![c_in];
        let rhs: Vec<usize> = vec![r2];
        assert(lhs@ =~= seq![c_in]);
        assert(rhs@ =~= seq![r2]);
        return Err(ShapeError::ShapeMismatch { lhs, rhs });
    }
    match (
        in_shape[rank - 2].checked_mul(upscale_factor),
        in_shape[rank - 1].checked_mul(upscale_factor),
    ) {
        (Some(h_out), Some(w_out)) => Ok(with_image(in_shape, c_in / r2, h_out, w_out)),
        _ => Err(ShapeError::ElementCountOverflow),
    }
}

proof fn square_is_zero(r: int)
    ensures
        r * r == 0 <==> r == 0,
        r >= 0 ==> r <= r * r,
{
    assert(r * r == 0 <==> r == 0) by (nonlinear_arith);
    assert(r >= 0 ==> r <= r * r) by (nonlinear_arith);
}

/// The shape of the result of [`PixelUnshuffle::forward`], or why there is none.
pub fn pixel_unshuffle_out_shape(in_shape: &[usize], downscale_factor: usize) -> (r: Result<
    Vec<usize>,
    ShapeError,
>)
    ensures
        match r {
            Ok(shape) => unshuffled_shape(in_shape@, downscale_factor) == Ok::<
                Seq<usize>,
                ErrorModel,
            >(shape@),
            Err(e) => unshuffled_shape(in_shape@, downscale_factor) == Err::<Seq<usize>, _>(e@),
        },
{
    let rank: usize = in_shape.len();
    if rank < 3 {
        return Err(ShapeError::RankMismatch { expected: 3, actual: rank });
    }
    let r2: usize = match downscale_factor.checked_mul(downscale_factor) {
        None => {
            return Err(ShapeError::ElementCountOverflow);
        },
        Some(r2) => r2,
    };
    let h: usize = in_shape[rank - 2];
    let w: usize = in_shape[rank - 1];
    if downscale_factor == 0 || h % downscale_factor != 0 || w % downscale_factor != 0 {
        let lhs: Vec<usize> = vec![h, w];
        let rhs: Vec<usize> = vec![downscale_factor];
        assert(lhs@ =~= seq![h, w]);
        assert(rhs@ =~= seq![downscale_factor]);
        return Err(ShapeError::ShapeMismatch { lhs, rhs });
    }
    match in_shape[rank - 3].checked_mul(r2) {
        Some(c_out) => Ok(
            with_image(in_shape, c_out, h / downscale_factor, w / downscale_factor),
        ),
        None => Err(ShapeError::ElementCountOverflow),
    }
}

/// The position in the input of the element that a shuffle puts at `position`,
/// where an input channel has `h` rows of `w` pixels.
pub open spec fn shuffle_source(r: int, h: int, w: int, position: int) -> int {
    let x = position % (w * r);
    let y = position / (w * r) % (h * r);
    let channel = position / (w * r) / (h * r);
    join(join(join(join(channel, r, y % r), r, x % r), h, y / r), w, x / r)
}

/// The position in the input of the element that an unshuffle puts at
/// `position`, where an output channel has `h` rows of `w` pixels.
pub open spec fn unshuffle_source(r: int, h: int, w: int, position: int) -> int {
    let x = position % w;
    let y = position / w % h;
    let part = position / w / h;
    join(join(part / r / r, h * r, join(y, r, part / r % r)), w * r, join(x, r, part % r))
}

/// The result of [`PixelShuffle::forward`].
pub open spec fn shuffled<T>(input: TensorModel<T>, r: usize) -> Result<
    TensorModel<T>,
    ErrorModel,
> {
    let n = input.shape.len() as int;
    match shuffled_shape(input.shape, r) {
        Err(e) => Err(e),
        Ok(shape) => Ok(
            TensorModel {
                shape,
                data: Seq::new(
                    input.data.len(),
                    |k: int|
                        input.data[shuffle_source(
                            r as int,
                            input.shape[n - 2] as int,
                            input.shape[n - 1] as int,
                            k,
                        )],
                ),
            },
        ),
    }
}

/// The result of [`PixelUnshuffle::forward`].
pub open spec fn unshuffled<T>(input: TensorModel<T>, r: usize) -> Result<
    TensorModel<T>,
    ErrorModel,
> {
    let n = input.shape.len() as int;
    match unshuffled_shape(input.shape, r) {
        Err(e) => Err(e),
        Ok(shape) => if !countable(shape) {
            Err(ErrorModel::ElementCountOverflow)
        } else {
            Ok(
                TensorModel {
                    shape,
                    data: Seq::new(
                        input.data.len(),
                        |k: int|
                            input.data[unshuffle_source(
                                r as int,
                                shape[n - 2] as int,
                                shape[n - 1] as int,
                                k,
                            )],
                    ),
                },
            )
        },
    }
}

/// The parts of a position in a shuffled tensor: the channel, counted over all
/// images, and the row and column of the pixel.
spec fn pixel_channel(r: int, h: int, w: int, position: int) -> int {
    position / (w * r) / (h * r)
}

spec fn pixel_row(r: int, h: int, w: int, position: int) -> int {
    position / (w * r) % (h * r)
}

spec fn pixel_column(r: int, h: int, w: int, position: int) -> int {
    position % (w * r)
}

proof fn regrouped(channels: int, r: int, h: int, w: int)
    ensures
        channels * (h * r) * (w * r) == channels * r * r * h * w,
        channels * (r * r) * h * w == channels * r * r * h * w,
{
    assert(channels * (h * r) * (w * r) == channels * r * r * h * w) by (nonlinear_arith);
    assert(channels * (r * r) * h * w == channels * r * r * h * w) by (nonlinear_arith);
}

/// Taking the parts of a position in a shuffled tensor.
proof fn pixel_parts(channels: int, r: int, h: int, w: int, position: int)
    requires
        0 < r,
        0 <= h,
        0 <= w,
        0 <= channels,
        0 <= position < channels * r * r * h * w,
    ensures
        0 < h,
        0 < w,
        0 < h * r,
        0 < w * r,
        0 <= pixel_channel(r, h, w, position) < channels,
        0 <= pixel_row(r, h, w, position) < h * r,
        0 <= pixel_column(r, h, w, position) < w * r,
        0 <= pixel_row(r, h, w, position) / r < h,
        0 <= pixel_row(r, h, w, position) % r < r,
        0 <= pixel_column(r, h, w, position) / r < w,
        0 <= pixel_column(r, h, w, position) % r < r,
        position == join(
            join(pixel_channel(r, h, w, position), h * r, pixel_row(r, h, w, position)),
            w * r,
            pixel_column(r, h, w, position),
        ),
{
    regrouped(channels, r, h, w);
    assert(0 <= h * r && 0 <= w * r && 0 <= channels * (h * r)) by (nonlinear_arith)
        requires
            0 < r,
            0 <= h,
            0 <= w,
            0 <= channels,
    ;
    split_bound(position, channels * (h * r), w * r);
    split_joins(position, w * r);
    let line = position / (w * r);
    split_bound(line, channels, h * r);
    split_joins(line, h * r);
    split_bound(pixel_row(r, h, w, position), h, r);
    split_bound(pixel_column(r, h, w, position), w, r);
}

/// A shuffle takes each element from a position of the input, and an unshuffle
/// puts that element back.
proof fn shuffle_source_is_inverted(channels: int, r: int, h: int, w: int, position: int)
    requires
        0 < r,
        0 <= h,
        0 <= w,
        0 <= channels,
        0 <= position < channels * r * r * h * w,
    ensures
        0 <= shuffle_source(r, h, w, position) < channels * r * r * h * w,
        unshuffle_source(r, h, w, shuffle_source(r, h, w, position)) == position,
{
    pixel_parts(channels, r, h, w, position);
    let channel = pixel_channel(r, h, w, position);
    let y = pixel_row(r, h, w, position);
    let x = pixel_column(r, h, w, position);
    let a = join(channel, r, y % r);
    let b = join(a, r, x % r);
    let c = join(b, h, y / r);
    join_bound(channel, channels, r, y % r);
    join_bound(a, channels * r, r, x % r);
    join_bound(b, channels * r * r, h, y / r);
    join_bound(c, channels * r * r * h, w, x / r);
    join_splits(channel, r, y % r);
    join_splits(a, r, x % r);
    join_splits(b, h, y / r);
    join_splits(c, w, x / r);
    split_joins(y, r);
    split_joins(x, r);
}

/// An unshuffle takes each element from a position of the input, and a shuffle
/// puts that element back.
proof fn unshuffle_source_is_inverted(channels: int, r: int, h: int, w: int, position: int)
    requires
        0 < r,
        0 <= h,
        0 <= w,
        0 <= channels,
        0 <= position < channels * r * r * h * w,
    ensures
        0 <= unshuffle_source(r, h, w, position) < channels * r * r * h * w,
        shuffle_source(r, h, w, unshuffle_source(r, h, w, position)) == position,
        0 < h,
        0 < w,
{
    assert(0 <= channels * r && 0 <= channels * r * r && 0 <= channels * r * r * h)
        by (nonlinear_arith)
        requires
            0 < r,
            0 <= h,
            0 <= channels,
    ;
    regrouped(channels, r, h, w);
    split_bound(position, channels * r * r * h, w);
    split_joins(position, w);
    split_bound(position / w, channels * r * r, h);
    split_joins(position / w, h);
    let x = position % w;
    let y = position / w % h;
    let part = position / w / h;
    split_bound(part, channels * r, r);
    split_joins(part, r);
    split_bound(part / r, channels, r);
    split_joins(part / r, r);
    let (i, j) = (part / r % r, part % r);
    let channel = part / r / r;
    join_bound(y, h, r, i);
    join_bound(x, w, r, j);
    join_bound(channel, channels, h * r, join(y, r, i));
    join_bound(join(channel, h * r, join(y, r, i)), channels * (h * r), w * r, join(x, r, j));
    join_splits(y, r, i);
    join_splits(x, r, j);
    join_splits(channel, h * r, join(y, r, i));
    join_splits(join(channel, h * r, join(y, r, i)), w * r, join(x, r, j));
}

/// The element counts of a shape that can be shuffled.
proof fn shuffled_count(shape: Seq<usize>, r: usize)
    requires
        shuffled_shape(shape, r) is Ok,
    ensures
        ({
            let n = shape.len() as int;
            let channels = count(leading(shape)) * (shape[n - 3] / ((r * r) as usize)) as nat;
            &&& 0 < r
            &&& count(shape) == channels * r * r * shape[n - 2] * shape[n - 1]
            &&& count(shuffled_shape(shape, r)->Ok_0) == count(shape)
            &&& countable(shape) ==> countable(shuffled_shape(shape, r)->Ok_0)
        }),
{
    let n = shape.len() as int;
    let lead = leading(shape);
    let r2 = (r * r) as usize;
    let c = (shape[n - 3] / r2) as usize;
    let (h, w) = (shape[n - 2], shape[n - 1]);
    let (ho, wo) = ((h * r) as usize, (w * r) as usize);
    square_is_zero(r as int);
    assert(shape =~= image_shape(lead, shape[n - 3], h, w));
    image_count(lead, shape[n - 3], h, w);
    image_count(lead, c, ho, wo);
    assert(shape[n - 3] == c * r2) by {
        split_joins(shape[n - 3] as int, r2 as int);
    }
    let l = count(lead) as int;
    assert(l * (c * (r * r)) * h * w == l * c * r * r * h * w) by (nonlinear_arith);
    assert(l * c * (h * r) * (w * r) == l * c * r * r * h * w) by (nonlinear_arith);
    if countable(shape) {
        let two = lead.push(shape[n - 3]).push(h);
        let one = lead.push(shape[n - 3]);
        assert(shape.drop_last() =~= two);
        assert(two.drop_last() =~= one);
        assert(one.drop_last() =~= lead);
        assert(countable(two));
        assert(countable(one));
        assert(countable(lead));
        assert(count(one) == l * (c * (r * r)));
        assert(count(two) == count(one) * (h as nat));
        let out = image_shape(lead, c, ho, wo);
        assert(out.drop_last() =~= lead.push(c).push(ho));
        assert(lead.push(c).push(ho).drop_last() =~= lead.push(c));
        assert(lead.push(c).drop_last() =~= lead);
        assert(count(lead.push(c)) == l * c);
        assert(count(lead.push(c).push(ho)) == l * c * (h * r));
        assert(l * c <= l * (c * (r * r))) by (nonlinear_arith)
            requires
                0 <= l,
                0 <= c,
                0 < r,
        ;
        assert(l * c * (h * r) <= l * (c * (r * r)) * h) by (nonlinear_arith)
            requires
                0 <= l,
                0 <= c,
                0 <= h,
                0 < r,
        ;
        assert(countable(lead.push(c)));
        assert(countable(lead.push(c).push(ho)));
        assert(countable(out));
    }
}

/// The element counts of a shape that can be unshuffled.
proof fn unshuffled_count(shape: Seq<usize>, r: usize)
    requires
        unshuffled_shape(shape, r) is Ok,
    ensures
        ({
            let n = shape.len() as int;
            let channels = count(leading(shape)) * shape[n - 3] as nat;
            let out = unshuffled_shape(shape, r)->Ok_0;
            &&& 0 < r
            &&& out.len() == n
            &&& count(shape) == channels * r * r * out[n - 2] * out[n - 1]
            &&& count(out) == count(shape)
        }),
{
    let n = shape.len() as int;
    let lead = leading(shape);
    let c = shape[n - 3];
    let (h, w) = ((shape[n - 2] / r) as usize, (shape[n - 1] / r) as usize);
    assert(shape =~= image_shape(lead, c, shape[n - 2], shape[n - 1]));
    image_count(lead, c, shape[n - 2], shape[n - 1]);
    image_count(lead, (c * (r * r)) as usize, h, w);
    assert(shape[n - 2] == h * r && shape[n - 1] == w * r) by {
        split_joins(shape[n - 2] as int, r as int);
        split_joins(shape[n - 1] as int, r as int);
    }
    let l = count(lead) as int;
    assert(l * c * (h * r) * (w * r) == l * c * r * r * h * w) by (nonlinear_arith);
    assert(l * (c * (r * r)) * h * w == l * c * r * r * h * w) by (nonlinear_arith);
}

fn shuffle_position(channels: Ghost<int>, r: usize, h: usize, w: usize, k: usize) -> (source: usize)
    requires
        0 < r,
        0 <= channels@,
        k < channels@ * r * r * h * w <= usize::MAX,
        h * r <= usize::MAX,
        w * r <= usize::MAX,
    ensures
        source == shuffle_source(r as int, h as int, w as int, k as int),
        source < channels@ * r * r * h * w,
{
    proof {
        pixel_parts(channels@, r as int, h as int, w as int, k as int);
        shuffle_source_is_inverted(channels@, r as int, h as int, w as int, k as int);
    }
    let x: usize = k % (w * r);
    let y: usize = k / (w * r) % (h * r);
    let channel: usize = k / (w * r) / (h * r);
    let ghost a = join(channel as int, r as int, (y % r) as int);
    let ghost b = join(a, r as int, (x % r) as int);
    let ghost c = join(b, h as int, (y / r) as int);
    proof {
        join_bound(channel as int, channels@, r as int, (y % r) as int);
        join_bound(a, channels@ * r, r as int, (x % r) as int);
        join_bound(b, channels@ * r * r, h as int, (y / r) as int);
        join_bound(c, channels@ * r * r * h, w as int, (x / r) as int);
    }
    let i: usize = channel * r + y % r;
    let i: usize = i * r + x % r;
    let i: usize = i * h + y / r;
    i * w + x / r
}

fn unshuffle_position(channels: Ghost<int>, r: usize, h: usize, w: usize, k: usize) -> (source:
    usize)
    requires
        0 < r,
        0 <= channels@,
        k < channels@ * r * r * h * w <= usize::MAX,
        h * r <= usize::MAX,
        w * r <= usize::MAX,
    ensures
        source == unshuffle_source(r as int, h as int, w as int, k as int),
        source < channels@ * r * r * h * w,
{
    proof {
        unshuffle_source_is_inverted(channels@, r as int, h as int, w as int, k as int);
        pixel_parts(
            channels@,
            r as int,
            h as int,
            w as int,
            unshuffle_source(r as int, h as int, w as int, k as int),
        );
    }
    let x: usize = k % w;
    let y: usize = k / w % h;
    let part: usize = k / w / h;
    let (i, j): (usize, usize) = (part / r % r, part % r);
    let channel: usize = part / r / r;
    proof {
        assert(y < h && x < w && i < r && j < r);
        join_bound(y as int, h as int, r as int, i as int);
        join_bound(x as int, w as int, r as int, j as int);
        let line = join(channel as int, h * r, join(y as int, r as int, i as int));
        assert(channel as int * (h * r) >= 0) by (nonlinear_arith)
            requires
                channel >= 0,
                h * r >= 0,
        ;
        assert(line * (w * r) >= line) by (nonlinear_arith)
            requires
                line >= 0,
                w * r >= 1,
        ;
    }
    let row: usize = y * r + i;
    let column: usize = x * r + j;
    (channel * (h * r) + row) * (w * r) + column
}

/// Moves groups of `r * r` channels into pixels: an image with `c * r * r`
/// channels of `h` rows of `w` pixels becomes one with `c` channels of `h * r`
/// rows of `w * r` pixels. Any number of dimensions may stand in front.
#[derive(Debug, Clone, PartialEq, Eq)]
pub struct PixelShuffle {
    upscale_factor: usize,
}

impl PixelShuffle {
    pub closed spec fn factor(&self) -> usize {
        self.upscale_factor
    }

    pub fn new(upscale_factor: usize) -> (r: Result<PixelShuffle, AutodiffError>)
        ensures
            match r {
                Ok(layer) => upscale_factor != 0 && layer.factor() == upscale_factor,
                Err(e) => upscale_factor == 0 && e@ == refused(
                    "PixelShuffle::new: upscale_factor must not be 0",
                ),
            },
    {
        if upscale_factor == 0 {
            return Err(invalid("PixelShuffle::new: upscale_factor must not be 0"));
        }
        Ok(PixelShuffle { upscale_factor })
    }

    pub fn upscale_factor(&self) -> (r: usize)
        ensures
            r == self.factor(),
    {
        self.upscale_factor
    }

    /// Same as [`PixelShuffle::forward`]: a backend has no part in moving elements.
    pub fn forward_host<T: Copy>(&self, input: &Tensor<T>) -> (r: Result<Tensor<T>, AutodiffError>)
        ensures
            match r {
                Ok(output) => shuffled(input@, self.factor()) == Ok::<TensorModel<T>, ErrorModel>(
                    output@,
                ),
                Err(e) => shuffled(input@, self.factor()) == Err::<TensorModel<T>, _>(e@),
            },
    {
        self.forward(input)
    }

    pub fn forward<T: Copy>(&self, input: &Tensor<T>) -> (r: Result<Tensor<T>, AutodiffError>)
        ensures
            match r {
                Ok(output) => shuffled(input@, self.factor()) == Ok::<TensorModel<T>, ErrorModel>(
                    output@,
                ),
                Err(e) => shuffled(input@, self.factor()) == Err::<TensorModel<T>, _>(e@),
            },
    {
        let shape: Vec<usize> = match pixel_shuffle_out_shape(input.shape(), self.upscale_factor) {
            Err(e) => {
                return Err(AutodiffError::Shape(e));
            },
            Ok(shape) => shape,
        };
        let data: &[T] = input.as_slice();
        let rank: usize = input.rank();
        let r: usize = self.upscale_factor;
        let h: usize = input.shape()[rank - 2];
        let w: usize = input.shape()[rank - 1];
        let ghost channels = count(leading(input@.shape)) * (input@.shape[rank - 3] / ((r
            * r) as usize)) as nat;
        proof {
            shuffled_count(input@.shape, r);
        }
        let mut out: Vec<T> = Vec::new();
        let mut k: usize = 0;
        while k < data.len()
            invariant
                0 < r,
                data@.len() == channels * r * r * h * w,
                h * r <= usize::MAX,
                w * r <= usize::MAX,
                k <= data@.len(),
                out@.len() == k,
                forall|i: int|
                    0 <= i < k ==> #[trigger] out@[i] == data@[shuffle_source(
                        r as int,
                        h as int,
                        w as int,
                        i,
                    )],
            decreases data@.len() - k,
        {
            let source: usize = shuffle_position(Ghost(channels as int), r, h, w, k);
            out.push(data[source]);
            k = k + 1;
        }
        let output: Tensor<T> = with_shape(shape.as_slice(), out);
        assert(output@ =~= shuffled(input@, r)->Ok_0);
        Ok(output)
    }
}

/// Moves squares of `r * r` pixels into channels. The inverse of
/// [`PixelShuffle`].
#[derive(Debug, Clone, PartialEq, Eq)]
pub struct PixelUnshuffle {
    downscale_factor: usize,
}

impl PixelUnshuffle {
    pub closed spec fn factor(&self) -> usize {
        self.downscale_factor
    }

    pub fn new(downscale_factor: usize) -> (r: Result<PixelUnshuffle, AutodiffError>)
        ensures
            match r {
                Ok(layer) => downscale_factor != 0 && layer.factor() == downscale_factor,
                Err(e) => downscale_factor == 0 && e@ == refused(
                    "PixelUnshuffle::new: downscale_factor must not be 0",
                ),
            },
    {
        if downscale_factor == 0 {
            return Err(invalid("PixelUnshuffle::new: downscale_factor must not be 0"));
        }
        Ok(PixelUnshuffle { downscale_factor })
    }

    pub fn downscale_factor(&self) -> (r: usize)
        ensures
            r == self.factor(),
    {
        self.downscale_factor
    }

    /// Same as [`PixelUnshuffle::forward`]: a backend has no part in moving elements.
    pub fn forward_host<T: Copy>(&self, input: &Tensor<T>) -> (r: Result<Tensor<T>, AutodiffError>)
        ensures
            match r {
                Ok(output) => unshuffled(input@, self.factor()) == Ok::<TensorModel<T>, ErrorModel>(
                    output@,
                ),
                Err(e) => unshuffled(input@, self.factor()) == Err::<TensorModel<T>, _>(e@),
            },
    {
        self.forward(input)
    }

    pub fn forward<T: Copy>(&self, input: &Tensor<T>) -> (r: Result<Tensor<T>, AutodiffError>)
        ensures
            match r {
                Ok(output) => unshuffled(input@, self.factor()) == Ok::<
                    TensorModel<T>,
                    ErrorModel,
                >(output@),
                Err(e) => unshuffled(input@, self.factor()) == Err::<TensorModel<T>, _>(e@),
            },
    {
        let shape: Vec<usize> = match pixel_unshuffle_out_shape(
            input.shape(),
            self.downscale_factor,
        ) {
            Err(e) => {
                return Err(AutodiffError::Shape(e));
            },
            Ok(shape) => shape,
        };
        if checked_product(shape.as_slice()).is_none() {
            return Err(AutodiffError::Shape(ShapeError::ElementCountOverflow));
        }
        let data: &[T] = input.as_slice();
        let rank: usize = input.rank();
        let r: usize = self.downscale_factor;
        proof {
            unshuffled_count(input@.shape, r);
        }
        let h: usize = shape[rank - 2];
        let w: usize = shape[rank - 1];
        let ghost channels = count(leading(input@.shape)) * input@.shape[rank - 3] as nat;
        proof {
            split_joins(input@.shape[rank - 2] as int, r as int);
            split_joins(input@.shape[rank - 1] as int, r as int);
        }
        let mut out: Vec<T> = Vec::new();
        let mut k: usize = 0;
        while k < data.len()
            invariant
                0 < r,
                data@.len() == channels * r * r * h * w,
                h * r <= usize::MAX,
                w * r <= usize::MAX,
                k <= data@.len(),
                out@.len() == k,
                forall|i: int|
                    0 <= i < k ==> #[trigger] out@[i] == data@[unshuffle_source(
                        r as int,
                        h as int,
                        w as int,
                        i,
                    )],
            decreases data@.len() - k,
        {
            let source: usize = unshuffle_position(Ghost(channels as int), r, h, w, k);
            out.push(data[source]);
            k = k + 1;
        }
        let output: Tensor<T> = with_shape(shape.as_slice(), out);
        assert(output@ =~= unshuffled(input@, r)->Ok_0);
        Ok(output)
    }
}

/// The pixel at row `y * r + i` and column `x * r + j` of channel `c` comes from
/// the pixel at row `y` and column `x` of channel `c * r * r + i * r + j`.
pub proof fn shuffle_moves_channels_into_pixels<T>(
    input: TensorModel<T>,
    r: usize,
    index: Seq<usize>,
    c: usize,
    y: usize,
    x: usize,
    i: usize,
    j: usize,
)
    requires
        input.wf(),
        shuffled(input, r) is Ok,
        in_bounds(leading(input.shape), index),
        c < input.shape[input.shape.len() - 3] / ((r * r) as usize),
        y < input.shape[input.shape.len() - 2],
        x < input.shape[input.shape.len() - 1],
        i < r,
        j < r,
    ensures
        shuffled(input, r)->Ok_0.at(
            image_shape(index, c, (y * r + i) as usize, (x * r + j) as usize),
        ) == input.at(image_shape(index, (c * r * r + i * r + j) as usize, y, x)),
{
    let n = input.shape.len() as int;
    let lead = leading(input.shape);
    let (h, w) = (input.shape[n - 2], input.shape[n - 1]);
    let r2 = (r * r) as usize;
    let cs = (input.shape[n - 3] / r2) as usize;
    let out = shuffled(input, r)->Ok_0;
    let (ho, wo) = ((h * r) as usize, (w * r) as usize);
    square_is_zero(r as int);
    shuffled_count(input.shape, r);
    join_bound(y as int, h as int, r as int, i as int);
    join_bound(x as int, w as int, r as int, j as int);
    join_splits(y as int, r as int, i as int);
    join_splits(x as int, r as int, j as int);
    let (row, column) = ((y * r + i) as usize, (x * r + j) as usize);
    let at = image_shape(index, c, row, column);
    assert(in_bounds(out.shape, at)) by {
        assert forall|k: int| 0 <= k < out.shape.len() implies at[k] < out.shape[k] by {
            if k < lead.len() {
                assert(at[k] == index[k] && out.shape[k] == lead[k]);
            } else if k == lead.len() {
                assert(at[k] == c && out.shape[k] == cs);
            } else if k == lead.len() + 1 {
                assert(at[k] == row && out.shape[k] == ho);
            } else {
                assert(at[k] == column && out.shape[k] == wo);
            }
        }
    }
    offset_is_below_count(out.shape, at);
    image_offset(lead, cs, ho, wo, index, c, row, column);
    let l = offset(lead, index) as int;
    let channel = join(l, cs as int, c as int);
    let line = join(channel, ho as int, row as int);
    join_splits(channel, ho as int, row as int);
    join_splits(line, wo as int, column as int);
    // The channel of the input.
    assert(input.shape[n - 3] == cs * r2) by {
        split_joins(input.shape[n - 3] as int, r2 as int);
    }
    join_bound(c as int, cs as int, r as int, i as int);
    join_bound(join(c as int, r as int, i as int), cs * r, r as int, j as int);
    assert(cs * r * r == cs * (r * r)) by (nonlinear_arith);
    let from = c * r * r + i * r + j;
    assert(join(join(c as int, r as int, i as int), r as int, j as int) == from)
        by (nonlinear_arith)
        requires
            from == c * r * r + i * r + j,
    ;
    assert(input.shape =~= image_shape(lead, input.shape[n - 3], h, w));
    image_offset(lead, input.shape[n - 3], h, w, index, from as usize, y, x);
    assert(join(join(channel, r as int, i as int), r as int, j as int) == join(
        l,
        cs * (r * r),
        from,
    )) by (nonlinear_arith)
        requires
            channel == l * cs + c,
            from == c * r * r + i * r + j,
    ;
}

/// An unshuffle undoes a shuffle.
pub proof fn unshuffle_undoes_shuffle<T>(input: TensorModel<T>, r: usize)
    requires
        input.wf(),
        countable(input.shape),
        shuffled(input, r) is Ok,
    ensures
        unshuffled(shuffled(input, r)->Ok_0, r) == Ok::<TensorModel<T>, ErrorModel>(input),
{
    let n = input.shape.len() as int;
    let lead = leading(input.shape);
    let (h, w) = (input.shape[n - 2], input.shape[n - 1]);
    let r2 = (r * r) as usize;
    let cs = (input.shape[n - 3] / r2) as usize;
    let out = shuffled(input, r)->Ok_0;
    square_is_zero(r as int);
    shuffled_count(input.shape, r);
    join_splits(h as int, r as int, 0);
    join_splits(w as int, r as int, 0);
    assert(input.shape[n - 3] == cs * r2) by {
        split_joins(input.shape[n - 3] as int, r2 as int);
    }
    assert(leading(out.shape) =~= lead);
    assert(image_shape(lead, input.shape[n - 3], h, w) =~= input.shape);
    assert(unshuffled_shape(out.shape, r) == Ok::<Seq<usize>, ErrorModel>(input.shape));
    let channels = count(lead) * cs as nat;
    let back = unshuffled(out, r)->Ok_0;
    assert forall|k: int| 0 <= k < input.data.len() implies back.data[k] == input.data[k] by {
        unshuffle_source_is_inverted(channels as int, r as int, h as int, w as int, k);
    }
    assert(back.data =~= input.data);
}

/// A shuffle undoes an unshuffle.
pub proof fn shuffle_undoes_unshuffle<T>(input: TensorModel<T>, r: usize)
    requires
        input.wf(),
        unshuffled(input, r) is Ok,
    ensures
        shuffled(unshuffled(input, r)->Ok_0, r) == Ok::<TensorModel<T>, ErrorModel>(input),
{
    let n = input.shape.len() as int;
    let lead = leading(input.shape);
    let out = unshuffled(input, r)->Ok_0;
    let c = input.shape[n - 3];
    unshuffled_count(input.shape, r);
    let (h, w) = (out.shape[n - 2], out.shape[n - 1]);
    let r2 = (r * r) as usize;
    square_is_zero(r as int);
    split_joins(input.shape[n - 2] as int, r as int);
    split_joins(input.shape[n - 1] as int, r as int);
    join_splits(c as int, r2 as int, 0);
    assert(leading(out.shape) =~= lead);
    assert(image_shape(lead, c, input.shape[n - 2], input.shape[n - 1]) =~= input.shape);
    assert(shuffled_shape(out.shape, r) == Ok::<Seq<usize>, ErrorModel>(input.shape));
    let channels = count(lead) * c as nat;
    let back = shuffled(out, r)->Ok_0;
    assert forall|k: int| 0 <= k < input.data.len() implies back.data[k] == input.data[k] by {
        shuffle_source_is_inverted(channels as int, r as int, h as int, w as int, k);
    }
    assert(back.data =~= input.data);
}

/// A shuffle by a factor of one changes nothing.
pub proof fn shuffle_by_one_is_identity<T>(input: TensorModel<T>)
    requires
        input.wf(),
        input.shape.len() >= 3,
    ensures
        shuffled(input, 1) == Ok::<TensorModel<T>, ErrorModel>(input),
{
    let n = input.shape.len() as int;
    let lead = leading(input.shape);
    let (c, h, w) = (input.shape[n - 3], input.shape[n - 2], input.shape[n - 1]);
    assert(image_shape(lead, c, h, w) =~= input.shape);
    assert(shuffled_shape(input.shape, 1) == Ok::<Seq<usize>, ErrorModel>(input.shape));
    shuffled_count(input.shape, 1);
    let channels = count(lead) * c as nat;
    assert forall|k: int| 0 <= k < input.data.len() implies shuffle_source(1, h as int, w as int, k)
        == k by {
        pixel_parts(channels as int, 1, h as int, w as int, k);
    }
    assert(shuffled(input, 1)->Ok_0.data =~= input.data);
}

} // verus!
