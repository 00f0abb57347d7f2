//! Pooling of images, and of signals as images of height one.
use crate::backend::outcome;
use crate::error::{AutodiffError, ErrorModel, ShapeError, rank_mismatch};
use crate::tensor::{Tensor, TensorModel, copied, count, countable, tensor_of, with_shape};
use vstd::prelude::*;

verus! {

/// The shape of a signal as an image of height one.
pub open spec fn image_row_shape(shape: Seq<usize>) -> Seq<usize> {
    seq![shape[0], shape[1], 1, shape[2]]
}

/// A signal as an image of height one.
pub open spec fn image_row<S>(input: TensorModel<S>) -> TensorModel<S> {
    TensorModel { shape: image_row_shape(input.shape), data: input.data }
}

proof fn image_row_count(shape: Seq<usize>)
    requires
        shape.len() == 3,
        countable(shape),
    ensures
        count(image_row_shape(shape)) == count(shape),
        countable(image_row_shape(shape)),
{
    let row = image_row_shape(shape);
    let pair = seq![shape[0], shape[1]];
    let three = seq![shape[0], shape[1], 1];
    assert(shape.drop_last() =~= pair);
    assert(row.drop_last() =~= three);
    assert(three.drop_last() =~= pair);
    assert(count(three) == count(pair) * 1);
    assert(countable(pair));
    assert(countable(three));
}

fn as_image_row<S: Copy>(input: &Tensor<S>) -> (r: Tensor<S>)
    requires
        input@.shape.len() == 3,
    ensures
        r@ == image_row(input@),
{
    let data: &[S] = input.as_slice();
    let shape: &[usize] = input.shape();
    let row: [usize; 4] = [shape[0], shape[1], 1, shape[2]];
    proof {
        assert(row@ =~= image_row_shape(shape@));
        image_row_count(shape@);
    }
    with_shape(&row, copied(data))
}

/// Pools a signal. `plan` gives the shape to which an image of the given shape is
/// pooled, and `pool` pools an image to that shape.
pub fn pool_signal<
    S: Copy,
    O: FnOnce(&[usize]) -> Result<Vec<usize>, AutodiffError>,
    P: FnOnce(&Tensor<S>, &[usize]) -> Result<Tensor<S>, AutodiffError>,
>(input: &Tensor<S>, plan: O, pool: P) -> (r: Result<Tensor<S>, AutodiffError>)
    requires
        forall|shape: &[usize]| call_requires(plan, (shape,)),
        forall|shape: &[usize], planned: Result<Vec<usize>, AutodiffError>| #[trigger]
            call_ensures(plan, (shape,), planned) && planned is Ok ==> planned->Ok_0@.len() == 4,
        forall|image: &Tensor<S>, shape: &[usize]| call_requires(pool, (image, shape)),
    ensures
        if input@.shape.len() != 3 {
            outcome(r) == Err::<TensorModel<S>, _>(
                ErrorModel::RankMismatch { expected: 3, actual: input@.shape.len() as usize },
            )
        } else {
            exists|shape: &[usize], planned: Result<Vec<usize>, AutodiffError>|
                {
                    &&& shape@ == image_row_shape(input@.shape)
                    &&& #[trigger] call_ensures(plan, (shape,), planned)
                    &&& match planned {
                        Err(e) => outcome(r) == Err::<TensorModel<S>, _>(e@),
                        Ok(out_shape) => exists|
                            image: &Tensor<S>,
                            to: &[usize],
                            pooled: Result<Tensor<S>, AutodiffError>,
                        |
                            {
                                &&& image@ == image_row(input@)
                                &&& to@ == out_shape@
                                &&& #[trigger] call_ensures(pool, (image, to), pooled)
                                &&& outcome(r) == match pooled {
                                    Err(e) => Err(e@),
                                    Ok(value) => tensor_of(
                                        value@.data,
                                        seq![input@.shape[0], input@.shape[1], out_shape@[3]],
                                    ),
                                }
                            },
                    }
                }
        },
{
    if input.rank() != 3 {
        return Err(rank_mismatch(3, input.rank()));
    }
    let image: Tensor<S> = as_image_row(input);
    let out_shape: Vec<usize> = match plan(image.shape()) {
        Err(e) => {
            return Err(e);
        },
        Ok(out_shape) => out_shape,
    };
    let shape: [usize; 3] = [input.shape()[0], input.shape()[1], out_shape[3]];
    assert(shape@ =~= seq![input@.shape[0], input@.shape[1], out_shape@[3]]);
    match pool(&image, out_shape.as_slice()) {
        Err(e) => Err(e),
        Ok(value) => Tensor::new(copied(value.as_slice()), &shape),
    }
}

/// Pools an image. `plan` gives the shape to which an image of the given shape is
/// pooled, and `pool` pools an image to that shape. It is not asked for a shape that
/// is refused.
pub fn pool_image<
    S,
    O: FnOnce(&[usize]) -> Result<Vec<usize>, ShapeError>,
    P: FnOnce(&Tensor<S>, &[usize]) -> Result<Tensor<S>, AutodiffError>,
>(input: &Tensor<S>, plan: O, pool: P) -> (r: Result<Tensor<S>, AutodiffError>)
    requires
        forall|shape: &[usize]| call_requires(plan, (shape,)),
        forall|shape: &[usize]| call_requires(pool, (input, shape)),
    ensures
        exists|shape: &[usize], planned: Result<Vec<usize>, ShapeError>|
            {
                &&& shape@ == input@.shape
                &&& #[trigger] call_ensures(plan, (shape,), planned)
                &&& match planned {
                    Err(e) => outcome(r) == Err::<TensorModel<S>, _>(e@),
                    Ok(out_shape) => exists|to: &[usize], pooled: Result<Tensor<S>, AutodiffError>|
                        {
                            &&& to@ == out_shape@
                            &&& #[trigger] call_ensures(pool, (input, to), pooled)
                            &&& outcome(r) == outcome(pooled)
                        },
                }
            },
{
    match plan(input.shape()) {
        Err(e) => Err(AutodiffError::Shape(e)),
        Ok(out_shape) => pool(input, out_shape.as_slice()),
    }
}

} // verus!
