//! Which way numbers point, and how that carries over to what is computed from them.
use crate::number::{Real, Single, fraction, in_unit_range, is_number, non_negative, one, zero};
use crate::optim::slots::{blended, decayed};
use vstd::prelude::*;

verus! {

/// Whether `x` points where `g` does, or nowhere: it is not negative where `g` is
/// not, and not positive where `g` is not.
pub open spec fn sided<S: Real>(g: S, x: S) -> bool {
    &&& zero::<S>().at_most(g) ==> zero::<S>().at_most(x)
    &&& g.at_most(zero()) ==> x.at_most(zero())
}

/// Whether the way from `before` to `after` does not lead where `g` points: it does
/// not lead up where `g` is not negative, and not down where `g` is not positive.
pub open spec fn against<S: Real>(g: S, before: S, after: S) -> bool {
    &&& zero::<S>().at_most(g) ==> after.at_most(before)
    &&& g.at_most(zero()) ==> before.at_most(after)
}

/// Zero and one are finite numbers in this order.
pub proof fn zero_is_zero<S: Real>()
    ensures
        zero::<S>().finite(),
        zero::<S>().at_most(zero()),
        one::<S>().finite(),
        zero::<S>().at_most(one()),
        zero::<S>().less(one()),
{
    zero::<S>().unit_interval(zero());
    zero::<S>().order(zero(), zero());
    S::decimals(0, 1, 0);
}

/// A number is not negative or not positive.
pub proof fn number_has_a_side<S: Real>(g: S)
    requires
        is_number(g),
    ensures
        zero::<S>().at_most(g) || g.at_most(zero()),
{
    zero_is_zero::<S>();
    zero::<S>().order(g, g);
}

/// A multiple by a factor that is not negative keeps the side.
pub proof fn sided_product<S: Real>(g: S, x: S, c: S)
    requires
        sided(g, x),
        zero::<S>().at_most(c),
        is_number(c.times(x)),
    ensures
        sided(g, c.times(x)),
        sided(g, x.times(c)),
        is_number(x),
        is_number(c),
{
    c.neutral(x);
    x.neutral(c);
    c.fused_operands(x, x);
    x.signs(c);
    c.signs(x);
}

/// A multiple by a factor that is not positive changes the side.
proof fn turned_product<S: Real>(g: S, x: S, c: S)
    requires
        sided(g, x),
        c.at_most(zero()),
        is_number(c.times(x)),
    ensures
        zero::<S>().at_most(g) ==> c.times(x).at_most(zero()),
        g.at_most(zero()) ==> zero::<S>().at_most(c.times(x)),
        is_number(x),
        is_number(c),
{
    c.neutral(x);
    c.fused_operands(x, x);
    c.signs(x);
}

/// A quotient by a positive number keeps the side.
pub proof fn sided_quotient<S: Real>(g: S, x: S, d: S)
    requires
        sided(g, x),
        zero::<S>().less(d),
        is_number(x.over(d)),
    ensures
        sided(g, x.over(d)),
        is_number(x),
        is_number(d),
{
    x.signs(d);
    x.fused_operands(d, d);
}

/// A fused product of numbers on one side with a weight that is not negative, and a
/// number on the same side, is there too.
pub proof fn sided_fused<S: Real>(g: S, c: S, x: S, y: S)
    requires
        zero::<S>().at_most(c),
        sided(g, x),
        sided(g, y),
        is_number(c.fused(x, y)),
    ensures
        sided(g, c.fused(x, y)),
        is_number(x),
        is_number(y),
{
    c.fused_operands(x, y);
    zero::<S>().order(y, c.fused(x, y));
    c.fused(x, y).order(y, zero());
}

/// The product of two numbers that point the same way is not negative.
pub proof fn aligned_product<S: Real>(g: S, x: S)
    requires
        sided(g, x),
        is_number(x.times(g)),
    ensures
        zero::<S>().at_most(x.times(g)),
        is_number(x),
        is_number(g),
{
    x.fused_operands(g, g);
    number_has_a_side(g);
    x.signs(g);
}

/// A difference of a point and a number leads against the side of the number.
pub proof fn difference_leads_against<S: Real>(g: S, start: S, x: S)
    requires
        sided(g, x),
        is_number(start.minus(x)),
    ensures
        against(g, start, start.minus(x)),
        is_number(start),
        is_number(x),
{
    start.fused_operands(x, x);
    start.signs(x);
}

/// A point minus a quotient leads against the side of the numerator.
pub proof fn quotient_leads_against<S: Real>(g: S, start: S, x: S, d: S)
    requires
        sided(g, x),
        zero::<S>().less(d),
        is_number(start.minus(x.over(d))),
    ensures
        against(g, start, start.minus(x.over(d))),
{
    start.fused_operands(x.over(d), x);
    sided_quotient(g, x, d);
    difference_leads_against(g, start, x.over(d));
}

/// The larger the number that is divided by, the shorter the way.
pub proof fn larger_divisor_shortens_the_way<S: Real>(g: S, start: S, x: S, d: S, e: S)
    requires
        is_number(g),
        sided(g, x),
        zero::<S>().less(d),
        d.at_most(e),
        is_number(start.minus(x.over(d))),
        is_number(start.minus(x.over(e))),
    ensures
        against(g, start.minus(x.over(e)), start.minus(x.over(d))),
        against(g, start, start.minus(x.over(e))),
{
    start.fused_operands(x.over(d), x);
    start.fused_operands(x.over(e), x);
    d.order(e, x);
    zero::<S>().order(d, e);
    zero::<S>().order(d, d);
    x.over(e).order(x.over(d), start);
    x.over(d).order(x.over(e), start);
    quotient_leads_against(g, start, x, e);
}

/// The larger the number that is divided, the longer the way.
pub proof fn larger_dividend_lengthens_the_way<S: Real>(g: S, start: S, x: S, y: S, d: S)
    requires
        against(g, y, x),
        zero::<S>().less(d),
        is_number(start.minus(x.over(d))),
        is_number(start.minus(y.over(d))),
    ensures
        against(g, start.minus(x.over(d)), start.minus(y.over(d))),
{
    start.fused_operands(x.over(d), x);
    start.fused_operands(y.over(d), y);
    x.order(y, d);
    y.order(x, d);
    x.over(d).order(y.over(d), start);
    y.over(d).order(x.over(d), start);
}

/// A sum with a positive number is positive where the other one is not negative.
pub proof fn positive_sum<S: Real>(a: S, b: S)
    requires
        zero::<S>().at_most(a),
        zero::<S>().less(b),
    ensures
        zero::<S>().less(a.plus(b)),
        b.at_most(a.plus(b)),
{
    zero::<S>().order(b, b);
    a.signs(b);
    zero::<S>().order(b, a.plus(b));
}

/// Numbers from zero to one take no more than the whole of a number.
pub proof fn part_of_a_number<S: Real>(c: S, x: S)
    requires
        in_unit_range(c),
        is_number(c.times(x)),
    ensures
        c.times(x) == x.times(c),
        zero::<S>().at_most(x) ==> zero::<S>().at_most(c.times(x)) && c.times(x).at_most(x),
        x.at_most(zero()) ==> c.times(x).at_most(zero()) && x.at_most(c.times(x)),
{
    c.neutral(x);
    x.neutral(c);
    x.neutral(one());
    c.fused_operands(x, x);
    c.order(one(), x);
    sided_product(x, x, c);
}

/// A difference of finite numbers tells which of them is larger.
proof fn difference_tells_the_order<S: Real>(a: S, b: S)
    requires
        a.finite(),
        b.finite(),
    ensures
        is_number(a.minus(b)),
        b.at_most(a) ==> zero::<S>().at_most(a.minus(b)),
        a.at_most(b) ==> a.minus(b).at_most(zero()),
        b.at_most(a) || a.at_most(b),
{
    a.order(a, a);
    b.order(b, b);
    a.order(b, b);
    b.order(a, b);
    a.fused_operands(b, b);
    b.fused_operands(b, b);
    b.neutral(b);
}

/// A weighted mean of two numbers on one side is there too.
pub proof fn sided_blend<S: Real>(g: S, start: S, end: S, rest: S)
    requires
        start.finite(),
        end.finite(),
        sided(g, start),
        sided(g, end),
        in_unit_range(rest),
        is_number(blended(start, end, one::<S>().minus(rest), rest)),
    ensures
        sided(g, blended(start, end, one::<S>().minus(rest), rest)),
{
    let weight = one::<S>().minus(rest);
    let origin = zero::<S>();
    let way = end.minus(start);
    zero_is_zero::<S>();
    rest.unit_interval(zero());
    difference_tells_the_order(end, start);
    difference_tells_the_order(origin, start);
    if weight.magnitude().less(S::decimal(5, -1)) {
        let part = weight.times(way);
        let back = origin.minus(start);
        start.fused_operands(part, part);
        part_of_a_number(weight, way);
        start.signs(part);
        start.neutral(part);
        start.neutral(back);
        origin.order(end, start);
        end.order(origin, start);
        back.order(way, part);
        part.order(way, back);
        back.neutral(start);
        start.plus(back).order(origin, origin);
        back.order(part, start);
        part.order(back, start);
        part.neutral(start);
        origin.order(start, start.plus(part));
        start.plus(part).order(start, origin);
        start.plus(part).order(start.plus(back), origin);
    } else {
        let part = way.times(rest);
        end.fused_operands(part, part);
        rest.neutral(way);
        part_of_a_number(rest, way);
        end.signs(start);
        part.order(way, end);
        end.order(way, part);
        end.signs(part);
        origin.order(end, end.minus(part));
        end.minus(part).order(end, origin);
        origin.order(part, end);
        end.order(part, origin);
        if part.finite() {
            difference_tells_the_order(end, part);
        }
    }
}

/// A sum with zero compares equal.
pub proof fn nothing_added<S: Real>(x: S, z: S)
    requires
        x.finite(),
        z.finite(),
        z.same(zero()),
    ensures
        x.plus(z).same(x),
        z.plus(x).same(x),
        x.minus(z).same(x),
{
    z.order(zero(), zero());
    x.fused_operands(z, z);
    x.signs(z);
    x.neutral(z);
    x.plus(z).order(x, x);
    x.minus(z).order(x, x);
}

/// A product with zero is zero.
pub proof fn nothing_taken<S: Real>(x: S)
    requires
        x.finite(),
    ensures
        x.times(zero()).same(zero()),
        zero::<S>().times(x).same(zero()),
        x.times(zero()).finite(),
        zero::<S>().times(x).finite(),
{
    let z = x.times(zero());
    x.neutral(zero());
    zero::<S>().neutral(x);
    z.order(zero(), zero());
    zero_is_zero::<S>();
    zero::<S>().order(z, zero());
}

/// A moving average of squares is not negative.
pub proof fn average_of_squares<S: Real>(beta: S, v: S, g: S)
    requires
        in_unit_range(beta),
        zero::<S>().at_most(v),
        is_number(beta.fused(v, one::<S>().minus(beta).times(g).times(g))),
    ensures
        zero::<S>().at_most(beta.fused(v, one::<S>().minus(beta).times(g).times(g))),
        is_number(g),
{
    let w = one::<S>().minus(beta);
    zero_is_zero::<S>();
    beta.unit_interval(zero());
    let x = w.times(g);
    beta.fused_operands(v, x.times(g));
    x.fused_operands(g, g);
    sided_product(g, g, w);
    aligned_product(g, x);
    zero::<S>().order(x.times(g), beta.fused(v, x.times(g)));
}

/// A moving average of numbers on one side is there too.
pub proof fn average_on_one_side<S: Real>(side: S, beta: S, m: S, g: S)
    requires
        in_unit_range(beta),
        sided(side, m),
        sided(side, g),
        is_number(beta.fused(m, one::<S>().minus(beta).times(g))),
    ensures
        sided(side, beta.fused(m, one::<S>().minus(beta).times(g))),
        is_number(g),
        is_number(m),
{
    let w = one::<S>().minus(beta);
    zero_is_zero::<S>();
    beta.unit_interval(zero());
    beta.fused_operands(m, w.times(g));
    sided_product(side, g, w);
    sided_fused(side, beta, m, w.times(g));
}

/// A moving average without memory is what is averaged, and one that forgets nothing
/// stays what it was: the weights of the old and the new add up to one.
pub proof fn average_between_its_ends<S: Real>(old: S, new: S)
    requires
        old.finite(),
        new.finite(),
    ensures
        zero::<S>().fused(old, one::<S>().minus(zero()).times(new)).same(new),
        one::<S>().fused(old, one::<S>().minus(one()).times(new)).same(old),
{
    one::<S>().neutral(one());
    zero_is_zero::<S>();
    new.neutral(one());
    one::<S>().neutral(new);
    new.neutral(old);
    nothing_taken(new);
    zero::<S>().times(new).neutral(old);
    nothing_added(old, zero::<S>().times(new));
}

/// The same of the mean that is computed from the nearer end.
pub proof fn blend_between_its_ends<S: Real>(old: S, new: S)
    requires
        old.finite(),
        new.finite(),
        new.minus(old).finite(),
    ensures
        blended(old, new, one::<S>().minus(zero()), zero()).same(new),
        blended(old, new, one::<S>().minus(one()), one()).same(old),
{
    let way = new.minus(old);
    let half = S::decimal(5, -1);
    one::<S>().neutral(one());
    zero_is_zero::<S>();
    S::decimals(0, 5, 1);
    S::decimals(5, 10, 1);
    S::decimals(0, 0, 0);
    S::decimals(1, 1, 0);
    nothing_taken(way);
    nothing_added(old, zero::<S>().times(way));
    nothing_added(new, way.times(zero()));
    zero::<S>().signs(zero());
    one::<S>().signs(one());
    let none = zero::<S>().magnitude();
    none.order(zero(), half);
    let whole = one::<S>().magnitude();
    whole.order(one(), half);
    one::<S>().order(whole, half);
    half.order(one(), whole);
    whole.order(half, whole);
    one::<S>().order(half, one());
    half.order(half, half);
}

/// Decay pulls the gradient along with the parameter, by as much as the rate says:
/// not at all for a rate of zero, and by the parameter itself for one.
pub proof fn decay_follows_the_parameter<S: Real>(weight_decay: S, param: S, grad: S)
    requires
        zero::<S>().at_most(weight_decay),
        is_number(decayed(weight_decay, param, grad)),
    ensures
        zero::<S>().at_most(param) ==> grad.at_most(decayed(weight_decay, param, grad)),
        param.at_most(zero()) ==> decayed(weight_decay, param, grad).at_most(grad),
        weight_decay.same(zero()) ==> decayed(weight_decay, param, grad) == grad,
        decayed(one(), param, grad) == param.plus(grad),
        !weight_decay.same(zero()) ==> decayed(weight_decay, one(), grad) == weight_decay.plus(
            grad,
        ),
{
    weight_decay.fused_operands(param, grad);
    weight_decay.fused_operands(one(), grad);
    grad.neutral(param);
    grad.neutral(weight_decay);
    zero_is_zero::<S>();
    S::decimals(0, 1, 0);
    one::<S>().order(zero(), zero());
    zero::<S>().order(one(), zero());
    zero::<S>().order(zero(), one());
    one::<S>().order(zero(), one());
    one::<S>().order(one(), one());
}

/// The weights of the old and the new in a moving average make one.
pub proof fn average_of_ones<S: Real>(beta: S)
    requires
        in_unit_range(beta),
    ensures
        beta.fused(one(), one::<S>().minus(beta).times(one())) == one::<S>(),
        beta.fused(one(), one::<S>().minus(beta).times(one()).times(one())) == one::<S>(),
{
    let rest = one::<S>().minus(beta);
    rest.neutral(beta);
    beta.neutral(rest);
    beta.fused_operands(one(), rest);
}

/// A moving average does not fall where what it was or what is averaged grows.
pub proof fn averages_are_ordered<S: Real>(beta: S, low: S, high: S, other: S)
    requires
        in_unit_range(beta),
        low.at_most(high),
    ensures
        ({
            let rest = one::<S>().minus(beta);
            &&& is_number(beta.fused(low, other)) && is_number(beta.fused(high, other))
                ==> beta.fused(low, other).at_most(beta.fused(high, other))
            &&& is_number(beta.fused(other, rest.times(low))) && is_number(
                beta.fused(other, rest.times(high)),
            ) ==> beta.fused(other, rest.times(low)).at_most(beta.fused(other, rest.times(high)))
        }),
{
    let rest = one::<S>().minus(beta);
    beta.unit_interval(beta);
    beta.fused_operands(low, other);
    beta.fused_operands(other, rest.times(low));
    beta.fused_operands(other, rest.times(high));
    low.order(high, rest);
    low.neutral(rest);
    high.neutral(rest);
}

/// A mean of a number and itself is the number.
pub proof fn blend_of_equals<S: Real>(x: S, weight: S, rest: S)
    requires
        x.finite(),
        weight.finite(),
        rest.finite(),
    ensures
        blended(x, x, weight, rest).same(x),
{
    x.neutral(x);
    nothing_taken(weight);
    nothing_taken(rest);
    nothing_added(x, weight.times(zero()));
    nothing_added(x, zero::<S>().times(rest));
}

/// Quotients by the same positive number, products with the same number that is not
/// negative, and differences with the same number keep two numbers equal.
pub proof fn equal_numbers_move_alike<S: Real>(start: S, x: S, y: S, c: S, d: S)
    requires
        x.same(y),
        zero::<S>().at_most(c),
        zero::<S>().less(d),
        is_number(start.minus(c.times(x).over(d))),
        is_number(start.minus(c.times(y).over(d))),
    ensures
        start.minus(c.times(x).over(d)).same(start.minus(c.times(y).over(d))),
{
    let u = c.times(x);
    let v = c.times(y);
    start.fused_operands(u.over(d), x);
    start.fused_operands(v.over(d), x);
    u.fused_operands(d, d);
    v.fused_operands(d, d);
    x.order(y, c);
    y.order(x, c);
    x.neutral(c);
    y.neutral(c);
    u.order(v, d);
    v.order(u, d);
    u.over(d).order(v.over(d), start);
    v.over(d).order(u.over(d), start);
    start.minus(u.over(d)).order(start.minus(v.over(d)), start);
}

/// The same of a moving average of squares.
pub proof fn squares_between_their_ends<S: Real>(old: S, new: S)
    requires
        old.finite(),
        new.times(new).finite(),
    ensures
        zero::<S>().fused(old, one::<S>().minus(zero()).times(new).times(new)).same(
            new.times(new),
        ),
        new.finite() ==> one::<S>().fused(
            old,
            one::<S>().minus(one()).times(new).times(new),
        ).same(old),
{
    one::<S>().neutral(one());
    zero_is_zero::<S>();
    new.neutral(one());
    one::<S>().neutral(new);
    new.times(new).neutral(old);
    if new.finite() {
        let z = zero::<S>().times(new);
        nothing_taken(new);
        z.order(zero(), zero());
        z.fused_operands(new, new);
        number_has_a_side(new);
        z.signs(new);
        new.neutral(z);
        z.neutral(new);
        new.signs(z);
        zero::<S>().order(z.times(new), zero());
        z.times(new).order(zero(), zero());
        z.times(new).neutral(old);
        nothing_added(old, z.times(new));
    }
}

/// Sums of roots and numbers keep the order of both.
pub proof fn roots_and_sums_are_ordered<S: Real>(low: S, high: S, a: S, b: S)
    requires
        low.at_most(high),
        a.at_most(b),
        is_number(low.root().plus(a)),
        is_number(high.root().plus(b)),
        zero::<S>().at_most(a),
    ensures
        low.root().at_most(high.root()),
        low.root().plus(a).at_most(high.root().plus(b)),
{
    let r = low.root();
    let t = high.root();
    r.fused_operands(a, a);
    t.fused_operands(b, b);
    low.order(high, a);
    low.fused_operands(low, low);
    high.fused_operands(high, high);
    sums_are_ordered(r, t, a, b);
}

/// Sums of numbers that are not negative keep the order of both.
proof fn sums_are_ordered<S: Real>(x: S, y: S, a: S, b: S)
    requires
        zero::<S>().at_most(y),
        zero::<S>().at_most(a),
        x.at_most(y),
        a.at_most(b),
        is_number(x.plus(a)),
        is_number(y.plus(b)),
    ensures
        x.plus(a).at_most(y.plus(b)),
{
    y.signs(a);
    y.order(y.plus(a), a);
    x.order(y, a);
    a.order(b, y);
    y.neutral(a);
    y.neutral(b);
    x.plus(a).order(y.plus(a), y.plus(b));
}

/// What an adaptive step is divided by is positive: the root of the second moment over
/// its bias correction, and epsilon.
pub proof fn divisor_is_positive<S: Real>(v: S, c: S, eps: S)
    requires
        zero::<S>().less(c),
        zero::<S>().less(eps),
        is_number(v.root().over(c).plus(eps)),
    ensures
        zero::<S>().less(v.root().over(c).plus(eps)),
        zero::<S>().at_most(v.root().over(c)),
        zero::<S>().at_most(v.root()),
        is_number(v),
{
    let r = v.root();
    r.over(c).fused_operands(eps, eps);
    r.fused_operands(c, c);
    v.fused_operands(v, v);
    r.signs(c);
    positive_sum(r.over(c), eps);
}

/// An adaptive step leads against the first moment.
pub proof fn adaptive_step_descends<S: Real>(g: S, start: S, step: S, m: S, v: S, c: S, eps: S)
    requires
        sided(g, m),
        zero::<S>().at_most(step),
        zero::<S>().less(c),
        zero::<S>().less(eps),
        is_number(start.minus(step.times(m).over(v.root().over(c).plus(eps)))),
    ensures
        against(g, start, start.minus(step.times(m).over(v.root().over(c).plus(eps)))),
        is_number(start),
        is_number(m),
        is_number(v),
        is_number(step.times(m)),
        sided(g, step.times(m)),
        is_number(v.root().over(c).plus(eps)),
        zero::<S>().less(v.root().over(c).plus(eps)),
{
    let d = v.root().over(c).plus(eps);
    let way = step.times(m);
    start.fused_operands(way.over(d), d);
    way.fused_operands(d, d);
    step.fused_operands(m, m);
    divisor_is_positive(v, c, eps);
    sided_product(g, m, step);
    quotient_leads_against(g, start, way, d);
}

/// A larger second moment and a larger epsilon make an adaptive step shorter, and a
/// larger step size and a larger bias correction make it longer.
pub proof fn adaptive_step_lengths<S: Real>(
    g: S,
    start: S,
    m: S,
    step: S,
    v: S,
    c: S,
    eps: S,
    other: S,
)
    requires
        is_number(g),
        sided(g, m),
        zero::<S>().at_most(step),
        zero::<S>().less(c),
        zero::<S>().less(eps),
        is_number(start.minus(step.times(m).over(v.root().over(c).plus(eps)))),
    ensures
        ({
            let moved = start.minus(step.times(m).over(v.root().over(c).plus(eps)));
            let further = start.minus(other.times(m).over(v.root().over(c).plus(eps)));
            let larger = start.minus(step.times(m).over(other.root().over(c).plus(eps)));
            let corrected = start.minus(step.times(m).over(v.root().over(other).plus(eps)));
            let wider = start.minus(step.times(m).over(v.root().over(c).plus(other)));
            &&& step.at_most(other) && is_number(further) ==> against(g, moved, further)
            &&& v.at_most(other) && is_number(larger) ==> against(g, larger, moved)
            &&& c.at_most(other) && is_number(corrected) ==> against(g, moved, corrected)
            &&& eps.at_most(other) && is_number(wider) ==> against(g, wider, moved)
        }),
{
    let r = v.root();
    let d = r.over(c).plus(eps);
    let way = step.times(m);
    adaptive_step_descends(g, start, step, m, v, c, eps);
    divisor_is_positive(v, c, eps);
    zero::<S>().order(eps, eps);
    zero::<S>().order(c, c);
    if step.at_most(other) {
        let further = other.times(m);
        if is_number(start.minus(further.over(d))) {
            start.fused_operands(further.over(d), d);
            further.fused_operands(d, d);
            number_has_a_side(m);
            step.order(other, m);
            larger_dividend_lengthens_the_way(g, start, way, further, d);
        }
    }
    if v.at_most(other) {
        let e = other.root().over(c).plus(eps);
        if is_number(start.minus(way.over(e))) {
            start.fused_operands(way.over(e), e);
            way.fused_operands(e, e);
            divisor_is_positive(other, c, eps);
            r.over(c).fused_operands(eps, eps);
            other.root().over(c).fused_operands(eps, eps);
            zero::<S>().order(r, r);
            v.order(other, c);
            r.order(other.root(), c);
            sums_are_ordered(r.over(c), other.root().over(c), eps, eps);
            larger_divisor_shortens_the_way(g, start, way, d, e);
        }
    }
    if c.at_most(other) {
        let e = r.over(other).plus(eps);
        if is_number(start.minus(way.over(e))) {
            start.fused_operands(way.over(e), e);
            way.fused_operands(e, e);
            zero::<S>().order(c, other);
            divisor_is_positive(v, other, eps);
            r.over(c).fused_operands(eps, eps);
            r.over(other).fused_operands(eps, eps);
            c.order(other, r);
            sums_are_ordered(r.over(other), r.over(c), eps, eps);
            larger_divisor_shortens_the_way(g, start, way, e, d);
        }
    }
    if eps.at_most(other) {
        let e = r.over(c).plus(other);
        if is_number(start.minus(way.over(e))) {
            start.fused_operands(way.over(e), e);
            way.fused_operands(e, e);
            r.over(c).fused_operands(eps, eps);
            r.over(c).order(r.over(c), c);
            sums_are_ordered(r.over(c), r.over(c), eps, other);
            larger_divisor_shortens_the_way(g, start, way, d, e);
        }
    }
}

/// A number below one is below one in the wider precision too, and lacks something of it.
pub proof fn widened_below_one<S: Single>(x: S)
    requires
        fraction(x),
    ensures
        x.widened().less(one()),
        in_unit_range(x.widened()),
        zero::<S::Wide>().less(one::<S::Wide>().minus(x.widened())),
        zero::<S>().less(S::rounded(one::<S::Wide>().minus(x.widened()))),
{
    let wide = x.widened();
    one::<S>().precisions(wide);
    x.precisions(wide);
    zero_is_zero::<S>();
    zero_is_zero::<S::Wide>();
    x.order(one(), one());
    wide.order(wide, wide);
    one::<S::Wide>().order(one(), one());
    wide.order(one(), one());
    one::<S::Wide>().signs(wide);
}

/// A learning rate over what a power lacks of one is at least the learning rate, is it
/// where the power is zero and one where the power lacks just the learning rate, and does
/// not fall where the power grows.
pub proof fn corrected_rates<S: Single>(lr: S, pow: S::Wide, later: S::Wide)
    requires
        non_negative(lr),
        fraction(pow),
        fraction(later),
    ensures
        ({
            let step = S::rounded(lr.widened().over(one::<S::Wide>().minus(pow)));
            &&& lr.at_most(step)
            &&& pow == zero::<S::Wide>() ==> step == lr
            &&& lr.widened() == one::<S::Wide>().minus(pow) && lr.widened().over(
                <S::Wide as Real>::decimal(2, 0),
            ).less(lr.widened()) ==> step == one::<S>()
            &&& later.at_most(pow) ==> S::rounded(
                lr.widened().over(one::<S::Wide>().minus(later)),
            ).at_most(step)
        }),
{
    let unit = one::<S::Wide>();
    let wide = lr.widened();
    let rest = unit.minus(pow);
    let more = unit.minus(later);
    zero_is_zero::<S::Wide>();
    unit.order(unit, unit);
    pow.order(unit, unit);
    later.order(unit, unit);
    pow.unit_interval(pow);
    later.unit_interval(pow);
    unit.signs(pow);
    unit.signs(later);
    rest.order(rest, rest);
    more.order(more, more);
    lr.precisions(wide.over(rest));
    wide.signs(rest);
    wide.signs(more);
    zero::<S::Wide>().order(wide.over(rest), unit);
    zero::<S::Wide>().order(wide.over(more), unit);
    zero::<S::Wide>().order(wide, unit);
    rest.order(unit, wide);
    wide.neutral(unit);
    unit.neutral(unit);
    one::<S>().precisions(unit);
    zero_is_zero::<S>();
    later.order(pow, unit);
    rest.order(more, wide);
    lr.precisions(wide.over(more));
}

/// The root of what a power lacks of one lies from zero to one, is one where the power
/// is zero and a half where the power lacks a quarter, and does not grow where the power
/// does.
pub proof fn root_corrections<S: Single>(pow: S::Wide, later: S::Wide)
    requires
        in_unit_range(pow),
        in_unit_range(later),
    ensures
        ({
            let correction = S::rounded(one::<S::Wide>().minus(pow).root());
            &&& in_unit_range(correction)
            &&& pow == zero::<S::Wide>() ==> correction == one::<S>()
            &&& one::<S::Wide>().minus(pow) == <S::Wide as Real>::decimal(25, -2) ==> correction
                == S::rounded(<S::Wide as Real>::decimal(5, -1))
            &&& later.at_most(pow) ==> correction.at_most(
                S::rounded(one::<S::Wide>().minus(later).root()),
            )
        }),
{
    let unit = one::<S::Wide>();
    let rest = unit.minus(pow);
    let more = unit.minus(later);
    pow.unit_interval(later);
    later.unit_interval(pow);
    zero_is_zero::<S::Wide>();
    zero_is_zero::<S>();
    unit.order(unit, unit);
    rest.order(unit, unit);
    more.order(unit, unit);
    unit.neutral(unit);
    zero::<S::Wide>().order(rest.root(), unit);
    one::<S>().precisions(rest.root());
    rest.order(rest, rest);
    more.order(more, more);
    later.order(pow, unit);
    rest.order(more, unit);
}

/// A multiple by a factor that is not positive, over a positive number, changes the side.
pub proof fn turned_quotient<S: Real>(g: S, x: S, c: S, d: S)
    requires
        sided(g, x),
        c.at_most(zero()),
        zero::<S>().less(d),
        is_number(c.times(x).over(d)),
    ensures
        zero::<S>().at_most(g) ==> c.times(x).over(d).at_most(zero()),
        g.at_most(zero()) ==> zero::<S>().at_most(c.times(x).over(d)),
        is_number(x),
{
    let y = c.times(x);
    y.fused_operands(d, d);
    turned_product(g, x, c);
    y.signs(d);
}

/// Taking a part of a number away leaves it on its side and no further out.
pub proof fn shrunk_number<S: Real>(x: S, part: S)
    requires
        in_unit_range(part),
        is_number(x.times(one::<S>().minus(part))),
    ensures
        sided(x, x.times(one::<S>().minus(part))),
        against(x, x, x.times(one::<S>().minus(part))),
{
    let rest = one::<S>().minus(part);
    part.unit_interval(part);
    rest.neutral(x);
    x.neutral(rest);
    part_of_a_number(rest, x);
}

/// What a power lacks of one lies from zero to one, is one where the power is zero, and
/// does not grow where the power does.
pub proof fn plain_corrections<S: Single>(pow: S::Wide, later: S::Wide)
    requires
        in_unit_range(pow),
        in_unit_range(later),
    ensures
        ({
            let correction = S::rounded(one::<S::Wide>().minus(pow));
            &&& in_unit_range(correction)
            &&& pow == zero::<S::Wide>() ==> correction == one::<S>()
            &&& one::<S::Wide>().minus(pow) == <S::Wide as Real>::decimal(25, -2) ==> correction
                == S::rounded(<S::Wide as Real>::decimal(25, -2))
            &&& later.at_most(pow) ==> correction.at_most(
                S::rounded(one::<S::Wide>().minus(later)),
            )
        }),
{
    let unit = one::<S::Wide>();
    let rest = unit.minus(pow);
    let more = unit.minus(later);
    pow.unit_interval(later);
    later.unit_interval(pow);
    zero_is_zero::<S>();
    unit.neutral(unit);
    one::<S>().precisions(rest);
    rest.order(rest, rest);
    more.order(more, more);
    later.order(pow, unit);
}

/// An average of one to which nothing comes falls to the decay rate.
pub proof fn fading_average<S: Real>(beta: S)
    requires
        in_unit_range(beta),
    ensures
        beta.fused(one(), one::<S>().minus(beta).times(zero())).same(beta),
        beta.fused(one(), one::<S>().minus(beta).times(zero()).times(zero())).same(beta),
{
    let rest = one::<S>().minus(beta);
    beta.unit_interval(beta);
    nothing_taken(rest);
    let first = rest.times(zero());
    nothing_taken(first);
    let second = first.times(zero());
    beta.fused_operands(one(), first);
    beta.fused_operands(one(), second);
    first.neutral(beta);
    second.neutral(beta);
    nothing_added(beta, first);
    nothing_added(beta, second);
}

} // verus!
