//! Positions that are put together from parts, and taken apart again.
use crate::tensor::{count, offset};
use vstd::arithmetic::div_mod::{
    lemma_div_multiples_vanish_fancy, lemma_fundamental_div_mod, lemma_mod_bound,
    lemma_mod_multiples_vanish,
};
use vstd::prelude::*;

verus! {

/// The position of `minor` in row `major`, where a row has `width` positions.
pub open spec fn join(major: int, width: int, minor: int) -> int {
    major * width + minor
}

/// A position that was put together is taken apart into the same parts.
pub proof fn join_splits(major: int, width: int, minor: int)
    requires
        0 <= minor < width,
    ensures
        join(major, width, minor) / width == major,
        join(major, width, minor) % width == minor,
{
    assert(major * width == width * major) by (nonlinear_arith);
    lemma_div_multiples_vanish_fancy(major, minor, width);
    lemma_mod_multiples_vanish(major, minor, width);
    assert(minor % width == minor) by (nonlinear_arith)
        requires
            0 <= minor < width,
    ;
}

/// A position that was taken apart is put together again.
pub proof fn split_joins(position: int, width: int)
    requires
        0 < width,
    ensures
        join(position / width, width, position % width) == position,
        0 <= position % width < width,
        0 <= position ==> 0 <= position / width,
{
    lemma_fundamental_div_mod(position, width);
    lemma_mod_bound(position, width);
    assert(width * (position / width) == (position / width) * width) by (nonlinear_arith);
    if 0 <= position {
        assert(0 <= position / width) by (nonlinear_arith)
            requires
                0 <= position,
                0 < width,
        ;
    }
}

/// Rows below a bound hold positions below the bound times the width.
pub proof fn join_bound(major: int, rows: int, width: int, minor: int)
    requires
        0 <= major < rows,
        0 <= minor < width,
    ensures
        0 <= join(major, width, minor) < rows * width,
        major <= join(major, width, minor),
{
    assert(0 <= major * width + minor < rows * width && major <= major * width + minor)
        by (nonlinear_arith)
        requires
            0 <= major < rows,
            0 <= minor < width,
    ;
}

/// Positions below a bound times the width lie in rows below the bound.
pub proof fn split_bound(position: int, rows: int, width: int)
    requires
        0 <= position < rows * width,
        0 <= rows,
        0 <= width,
    ensures
        0 < width,
        0 < rows,
        0 <= position / width < rows,
        0 <= position % width < width,
{
    assert(0 < width && 0 < rows) by (nonlinear_arith)
        requires
            0 <= position < rows * width,
            0 <= rows,
            0 <= width,
    ;
    split_joins(position, width);
    if position / width >= rows {
        assert((position / width) * width >= rows * width) by (nonlinear_arith)
            requires
                position / width >= rows,
                0 < width,
        ;
    }
}

/// The shape `lead` followed by three dimensions.
pub open spec fn image_shape(lead: Seq<usize>, c: usize, h: usize, w: usize) -> Seq<usize> {
    lead.push(c).push(h).push(w)
}

/// The number of elements of an image shape.
pub proof fn image_count(lead: Seq<usize>, c: usize, h: usize, w: usize)
    ensures
        count(image_shape(lead, c, h, w)) == count(lead) * c * h * w,
{
    let shape = image_shape(lead, c, h, w);
    assert(shape.drop_last() =~= lead.push(c).push(h));
    assert(lead.push(c).push(h).drop_last() =~= lead.push(c));
    assert(lead.push(c).drop_last() =~= lead);
    assert(count(lead.push(c)) == count(lead) * (c as nat));
    assert(count(lead.push(c).push(h)) == count(lead.push(c)) * (h as nat));
    assert(count(shape) == count(lead.push(c).push(h)) * (w as nat));
}

/// The position of an element of an image shape.
pub proof fn image_offset(
    lead: Seq<usize>,
    c: usize,
    h: usize,
    w: usize,
    index: Seq<usize>,
    i: usize,
    y: usize,
    x: usize,
)
    requires
        index.len() == lead.len(),
    ensures
        offset(image_shape(lead, c, h, w), image_shape(index, i, y, x)) == join(
            join(join(offset(lead, index) as int, c as int, i as int), h as int, y as int),
            w as int,
            x as int,
        ),
{
    let shape = image_shape(lead, c, h, w);
    let at = image_shape(index, i, y, x);
    assert(shape.drop_last() =~= lead.push(c).push(h));
    assert(lead.push(c).push(h).drop_last() =~= lead.push(c));
    assert(lead.push(c).drop_last() =~= lead);
    assert(at.drop_last() =~= index.push(i).push(y));
    assert(index.push(i).push(y).drop_last() =~= index.push(i));
    assert(index.push(i).drop_last() =~= index);
    assert(offset(lead.push(c), index.push(i)) == join(
        offset(lead, index) as int,
        c as int,
        i as int,
    ));
    assert(offset(lead.push(c).push(h), index.push(i).push(y)) == join(
        offset(lead.push(c), index.push(i)) as int,
        h as int,
        y as int,
    ));
}

} // verus!
