//! Decimal numbers with nine digits after the point.
//!
//! Their arithmetic is exact up to the last digit, which is cut off, and stays at
//! the largest or smallest number where a result would be beyond it. From there no
//! division by a positive number leads back. There are no infinite numbers.
use crate::number::{Double, Real, Single, one, zero};
use crate::text::{followed_by, joined, long_numeral_text, numeral};
use vstd::prelude::*;

verus! {

/// The number of units in one.
pub const UNITS: i64 = 1_000_000_000;

/// A decimal number with nine digits after the point, as a number of billionths.
#[derive(Debug, Clone, Copy, PartialEq, Eq, Hash, Structural)]
pub struct Fixed {
    pub units: i64,
}

/// The number of `n` units, or the nearest one that there is.
pub open spec fn nearest(n: int) -> Fixed {
    Fixed {
        units: if n > i64::MAX {
            i64::MAX
        } else if n < i64::MIN {
            i64::MIN
        } else {
            n as i64
        },
    }
}

/// A quotient without its fractional part.
pub open spec fn quotient(n: int, d: int) -> int {
    if n >= 0 && d > 0 {
        n / d
    } else if n < 0 && d > 0 {
        -((-n) / d)
    } else if n >= 0 {
        -(n / (-d))
    } else {
        (-n) / (-d)
    }
}

/// A power of ten.
pub open spec fn ten_to(n: nat) -> int
    decreases n,
{
    if n == 0 {
        1
    } else {
        10 * ten_to((n - 1) as nat)
    }
}

/// Whether `r` is the square root of `n` without its fractional part.
pub open spec fn is_whole_root(r: nat, n: nat) -> bool {
    r * r <= n < (r + 1) * (r + 1)
}

/// The square root of `n` without its fractional part.
pub open spec fn whole_root(n: nat) -> nat {
    choose|r: nat| is_whole_root(r, n)
}

proof fn whole_root_is_unique(r: nat, n: nat)
    requires
        is_whole_root(r, n),
    ensures
        whole_root(n) == r,
{
    let other = whole_root(n);
    assert(is_whole_root(other, n));
    assert(other == r) by (nonlinear_arith)
        requires
            r * r <= n < (r + 1) * (r + 1),
            other * other <= n < (other + 1) * (other + 1),
    ;
}

proof fn whole_root_exists(n: nat)
    ensures
        is_whole_root(whole_root(n), n),
    decreases n,
{
    if n == 0 {
        assert(is_whole_root(0, 0)) by (nonlinear_arith);
    } else {
        whole_root_exists((n - 1) as nat);
        let r = whole_root((n - 1) as nat);
        assert((r + 1) * (r + 1) < (r + 2) * (r + 2)) by (nonlinear_arith);
        if (r + 1) * (r + 1) <= n {
            assert(is_whole_root(r + 1, n));
        } else {
            assert(is_whole_root(r, n));
        }
    }
}

proof fn whole_roots_are_ordered(m: nat, n: nat)
    requires
        m <= n,
    ensures
        whole_root(m) <= whole_root(n),
{
    whole_root_exists(m);
    whole_root_exists(n);
    let (a, b) = (whole_root(m), whole_root(n));
    assert(a <= b) by (nonlinear_arith)
        requires
            a * a <= m,
            m <= n,
            n < (b + 1) * (b + 1),
    ;
}

/// A positive number has a positive root.
proof fn root_is_positive(x: Fixed)
    requires
        x.units > 0,
    ensures
        x.root().units > 0,
{
    let n = (x.units * UNITS) as nat;
    whole_root_exists(n);
    let r = whole_root(n);
    assert(r > 0) by (nonlinear_arith)
        requires
            n < (r + 1) * (r + 1),
            n >= 1,
            r >= 0,
    ;
}

fn square_root(n: u128) -> (r: u128)
    requires
        n < 0x1_0000_0000_0000_0000_0000_0000,
    ensures
        r == whole_root(n as nat),
        r < 0x1_0000_0000_0000,
{
    let mut low: u128 = 0;
    let mut high: u128 = 0x1_0000_0000_0000;
    while high - low > 1
        invariant
            low < high <= 0x1_0000_0000_0000,
            low * low <= n < high * high,
        decreases high - low,
    {
        let middle: u128 = low + (high - low) / 2;
        assert(middle * middle <= 0x1_0000_0000_0000_0000_0000_0000) by (nonlinear_arith)
            requires
                0 <= middle <= 0x1_0000_0000_0000,
        ;
        if middle * middle <= n {
            low = middle;
        } else {
            high = middle;
        }
    }
    proof {
        assert(high == low + 1);
        assert(is_whole_root(low as nat, n as nat));
        whole_root_is_unique(low as nat, n as nat);
    }
    low
}

fn saturate(n: i128) -> (r: Fixed)
    ensures
        r == nearest(n as int),
{
    if n > i64::MAX as i128 {
        Fixed { units: i64::MAX }
    } else if n < i64::MIN as i128 {
        Fixed { units: i64::MIN }
    } else {
        Fixed { units: n as i64 }
    }
}

fn divide(n: i128, d: i128) -> (r: i128)
    requires
        n > i128::MIN,
        d > i128::MIN,
        d != 0,
    ensures
        r == quotient(n as int, d as int),
        -(if n < 0 { -n } else { n as int }) <= r <= (if n < 0 { -n } else { n as int }),
{
    let a: u128 = if n < 0 {
        (-n) as u128
    } else {
        n as u128
    };
    let b: u128 = if d < 0 {
        (-d) as u128
    } else {
        d as u128
    };
    let q: u128 = a / b;
    assert(q <= a) by (nonlinear_arith)
        requires
            q == a / b,
            b > 0,
            a >= 0,
    ;
    if (n < 0) == (d < 0) {
        q as i128
    } else {
        -(q as i128)
    }
}

fn product(a: Fixed, b: Fixed) -> (r: i128)
    ensures
        r == a.units * b.units,
        -0x4000_0000_0000_0000_0000_0000_0000_0000 <= r <= 0x4000_0000_0000_0000_0000_0000_0000_0000,
{
    let x: i128 = a.units as i128;
    let y: i128 = b.units as i128;
    assert(-0x4000_0000_0000_0000_0000_0000_0000_0000 <= x * y
        <= 0x4000_0000_0000_0000_0000_0000_0000_0000) by (nonlinear_arith)
        requires
            -0x8000_0000_0000_0000 <= x <= 0x8000_0000_0000_0000,
            -0x8000_0000_0000_0000 <= y <= 0x8000_0000_0000_0000,
    ;
    x * y
}

/// A product.
pub open spec fn multiplied(a: Fixed, b: Fixed) -> Fixed {
    nearest(quotient(a.units * b.units, UNITS as int))
}

fn multiply(a: Fixed, b: Fixed) -> (r: Fixed)
    ensures
        r == multiplied(a, b),
{
    saturate(divide(product(a, b), UNITS as i128))
}

/// A quotient. Dividing by zero gives the largest or the smallest number, or zero,
/// and dividing one of these two by a positive number leaves it as it is.
pub open spec fn divided(a: Fixed, b: Fixed) -> Fixed {
    if b.units > 0 && (a.units == i64::MAX || a.units == i64::MIN) {
        a
    } else if b.units != 0 {
        nearest(quotient(a.units * UNITS, b.units as int))
    } else if a.units > 0 {
        Fixed { units: i64::MAX }
    } else if a.units < 0 {
        Fixed { units: i64::MIN }
    } else {
        a
    }
}

fn divide_by(a: Fixed, b: Fixed) -> (r: Fixed)
    ensures
        r == divided(a, b),
{
    if b.units > 0 && (a.units == i64::MAX || a.units == i64::MIN) {
        a
    } else if b.units != 0 {
        saturate(divide(product(a, Fixed { units: UNITS }), b.units as i128))
    } else if a.units > 0 {
        Fixed { units: i64::MAX }
    } else if a.units < 0 {
        Fixed { units: i64::MIN }
    } else {
        a
    }
}

/// The sum of `a` and `b * square / divisor`.
pub open spec fn next_term(a: int, b: Fixed, square: Fixed, divisor: int) -> Fixed {
    nearest(a + quotient(multiplied(b, square).units as int, divisor))
}

fn add_term(a: i64, b: Fixed, square: Fixed, divisor: i64) -> (r: Fixed)
    requires
        divisor != 0,
    ensures
        r == next_term(a as int, b, square, divisor as int),
{
    let part: i128 = divide(multiply(b, square).units as i128, divisor as i128);
    saturate(a as i128 + part)
}

/// The Taylor polynomial of the cosine up to the tenth power.
pub open spec fn cosine_of(x: Fixed) -> Fixed {
    let square = multiplied(x, x);
    let unit = UNITS as int;
    let t = next_term(unit, Fixed { units: UNITS }, square, -90);
    let t = next_term(unit, t, square, -56);
    let t = next_term(unit, t, square, -30);
    let t = next_term(unit, t, square, -12);
    next_term(unit, t, square, -2)
}

fn compute_cosine(x: Fixed) -> (r: Fixed)
    ensures
        r == cosine_of(x),
{
    let square: Fixed = multiply(x, x);
    let t: Fixed = add_term(UNITS, Fixed { units: UNITS }, square, -90);
    let t: Fixed = add_term(UNITS, t, square, -56);
    let t: Fixed = add_term(UNITS, t, square, -30);
    let t: Fixed = add_term(UNITS, t, square, -12);
    add_term(UNITS, t, square, -2)
}

/// The Taylor polynomial of the sine up to the eleventh power.
pub open spec fn sine_of(x: Fixed) -> Fixed {
    let square = multiplied(x, x);
    let unit = UNITS as int;
    let t = next_term(unit, Fixed { units: UNITS }, square, -110);
    let t = next_term(unit, t, square, -72);
    let t = next_term(unit, t, square, -42);
    let t = next_term(unit, t, square, -20);
    multiplied(x, next_term(unit, t, square, -6))
}

fn compute_sine(x: Fixed) -> (r: Fixed)
    ensures
        r == sine_of(x),
{
    let square: Fixed = multiply(x, x);
    let t: Fixed = add_term(UNITS, Fixed { units: UNITS }, square, -110);
    let t: Fixed = add_term(UNITS, t, square, -72);
    let t: Fixed = add_term(UNITS, t, square, -42);
    let t: Fixed = add_term(UNITS, t, square, -20);
    multiply(x, add_term(UNITS, t, square, -6))
}

/// A power with an exponent that is not negative.
pub open spec fn power(base: Fixed, exponent: nat) -> Fixed
    decreases exponent,
{
    if exponent == 0 {
        Fixed { units: UNITS }
    } else {
        multiplied(power(base, (exponent - 1) as nat), base)
    }
}

fn raise(base: Fixed, exponent: u64) -> (r: Fixed)
    ensures
        r == power(base, exponent as nat),
{
    let mut r: Fixed = Fixed { units: UNITS };
    let mut i: u64 = 0;
    while i < exponent
        invariant
            i <= exponent,
            r == power(base, i as nat),
        decreases exponent - i,
    {
        r = multiply(r, base);
        i = i + 1;
    }
    r
}

proof fn ten_to_is_positive(n: nat)
    ensures
        ten_to(n) >= 1,
    decreases n,
{
    if n > 0 {
        ten_to_is_positive((n - 1) as nat);
    }
}

proof fn beyond_stays_beyond(m: int, k: nat)
    requires
        m > i64::MAX || m < i64::MIN,
    ensures
        nearest(m * ten_to(k)) == nearest(m),
{
    ten_to_is_positive(k);
    let t = ten_to(k);
    assert(m > 0 ==> m * t >= m) by (nonlinear_arith)
        requires
            t >= 1,
    ;
    assert(m < 0 ==> m * t <= m) by (nonlinear_arith)
        requires
            t >= 1,
    ;
}

/// `mantissa` with `n` zeros behind it.
fn lengthened(mantissa: i64, n: u32) -> (r: Fixed)
    ensures
        r == nearest(mantissa * ten_to(n as nat)),
{
    let mut value: i128 = mantissa as i128;
    let mut i: u32 = 0;
    assert(value * 1 == mantissa);
    while i < n && value <= i64::MAX as i128 && value >= i64::MIN as i128 && value != 0
        invariant
            i <= n,
            value == mantissa * ten_to(i as nat),
            -0x5_0000_0000_0000_0000 <= value <= 0x5_0000_0000_0000_0000,
        decreases n - i,
    {
        assert(10 * (mantissa * ten_to(i as nat)) == mantissa * (10 * ten_to(i as nat)))
            by (nonlinear_arith);
        value = 10 * value;
        i = i + 1;
    }
    proof {
        let rest = (n - i) as nat;
        ten_to_adds(i as nat, rest);
        let a = ten_to(i as nat);
        let b = ten_to(rest);
        assert((mantissa * a) * b == mantissa * (a * b)) by (nonlinear_arith);
        if value > i64::MAX || value < i64::MIN {
            beyond_stays_beyond(value as int, rest);
        } else if value == 0 {
            assert(0 * b == 0);
        } else {
            assert(b == 1);
            assert((mantissa * a) * 1 == mantissa * a);
        }
    }
    saturate(value)
}

proof fn ten_to_adds(a: nat, b: nat)
    ensures
        ten_to(a + b) == ten_to(a) * ten_to(b),
    decreases b,
{
    if b == 0 {
        assert(ten_to(a) * 1 == ten_to(a));
    } else {
        ten_to_adds(a, (b - 1) as nat);
        let x = ten_to(a);
        let y = ten_to((b - 1) as nat);
        assert(x * (10 * y) == 10 * (x * y)) by (nonlinear_arith);
    }
}

/// `mantissa` without its last `n` digits.
fn shortened(mantissa: i64, n: u32) -> (r: Fixed)
    ensures
        r == nearest(quotient(mantissa as int, ten_to(n as nat))),
{
    let wide: i128 = mantissa as i128;
    let size: u128 = if wide < 0 {
        (-wide) as u128
    } else {
        wide as u128
    };
    let mut rest: u128 = size;
    let mut i: u32 = 0;
    assert(size as int / 1 == size);
    while i < n && rest > 0
        invariant
            i <= n,
            rest == size as int / ten_to(i as nat),
            rest <= size <= 0x8000_0000_0000_0000,
        decreases n - i,
    {
        proof {
            ten_to_is_positive(i as nat);
            let d = ten_to(i as nat);
            vstd::arithmetic::div_mod::lemma_div_denominator(size as int, d, 10);
            assert(d * 10 == 10 * d);
        }
        rest = rest / 10;
        i = i + 1;
    }
    proof {
        ten_to_is_positive(n as nat);
        if rest == 0 {
            let a = ten_to(i as nat);
            let b = ten_to((n - i) as nat);
            ten_to_is_positive(i as nat);
            ten_to_is_positive((n - i) as nat);
            ten_to_adds(i as nat, (n - i) as nat);
            vstd::arithmetic::div_mod::lemma_div_denominator(size as int, a, b);
            assert(0int / b == 0) by (nonlinear_arith)
                requires
                    b >= 1,
            ;
        }
    }
    let signed: i128 = if wide < 0 {
        -(rest as i128)
    } else {
        rest as i128
    };
    saturate(signed)
}

/// A power with a whole exponent.
pub open spec fn power_of(base: Fixed, exponent: int) -> Fixed {
    if exponent >= 0 {
        power(base, exponent as nat)
    } else {
        divided(Fixed { units: UNITS }, power(base, (-exponent) as nat))
    }
}

fn compute_power(base: Fixed, exponent: i64) -> (r: Fixed)
    requires
        exponent > i64::MIN,
    ensures
        r == power_of(base, exponent as int),
{
    if exponent >= 0 {
        raise(base, exponent as u64)
    } else {
        divide_by(Fixed { units: UNITS }, raise(base, (-exponent) as u64))
    }
}

proof fn zero_and_one()
    ensures
        Fixed::decimal(0, 0) == (Fixed { units: 0 }),
        Fixed::decimal(1, 0) == (Fixed { units: UNITS }),
        Fixed::decimal(2, 0) == (Fixed { units: 2_000_000_000 }),
{
    assert(ten_to(9) == 1_000_000_000) by {
        reveal_with_fuel(ten_to, 10);
    }
}

proof fn units_are_neutral(x: Fixed)
    ensures
        multiplied(x, Fixed { units: UNITS }) == x,
        multiplied(x, Fixed { units: 0 }) == (Fixed { units: 0 }),
        divided(x, Fixed { units: UNITS }) == x,
{
    let u = x.units as int;
    assert((u * 1_000_000_000) / 1_000_000_000 == u);
    assert((-(u * 1_000_000_000)) / 1_000_000_000 == -u);
    assert(u * 0 == 0);
}

/// How large the product of two numbers is, one of which is not negative.
proof fn product_sizes(a: Fixed, b: Fixed)
    requires
        a.units >= 0,
    ensures
        b.units >= 0 ==> multiplied(a, b).units >= 0,
        b.units <= 0 ==> multiplied(a, b).units <= 0,
        b.units >= UNITS ==> multiplied(a, b).units >= a.units,
        0 <= b.units <= UNITS ==> multiplied(a, b).units <= a.units,
{
    let x = a.units as int;
    let y = b.units as int;
    let n = x * y;
    assert(y >= 0 ==> n >= 0) by (nonlinear_arith)
        requires
            n == x * y,
            x >= 0,
    ;
    assert(y <= 0 ==> n <= 0) by (nonlinear_arith)
        requires
            n == x * y,
            x >= 0,
    ;
    assert(y >= 1_000_000_000 ==> n >= x * 1_000_000_000) by (nonlinear_arith)
        requires
            n == x * y,
            x >= 0,
    ;
    assert(y <= 1_000_000_000 ==> n <= x * 1_000_000_000) by (nonlinear_arith)
        requires
            n == x * y,
            x >= 0,
    ;
}

proof fn products_are_ordered(a: Fixed, b: Fixed, c: Fixed)
    requires
        a.units <= b.units,
    ensures
        c.units >= 0 ==> multiplied(a, c).units <= multiplied(b, c).units,
        c.units <= 0 ==> multiplied(b, c).units <= multiplied(a, c).units,
{
    let (x, y, z) = (a.units as int, b.units as int, c.units as int);
    assert(z >= 0 ==> x * z <= y * z) by (nonlinear_arith)
        requires
            x <= y,
    ;
    assert(z <= 0 ==> y * z <= x * z) by (nonlinear_arith)
        requires
            x <= y,
    ;
    if z >= 0 {
        quotients_are_ordered(x * z, y * z, UNITS as int);
    }
    if z <= 0 {
        quotients_are_ordered(y * z, x * z, UNITS as int);
    }
}

proof fn quotients_keep_the_order(a: Fixed, b: Fixed, c: Fixed)
    requires
        a.units <= b.units,
    ensures
        c.units > 0 ==> divided(a, c).units <= divided(b, c).units,
        a.units > 0 && c.units >= 0 ==> divided(c, b).units <= divided(c, a).units,
        a.units > 0 && c.units <= 0 ==> divided(c, a).units <= divided(c, b).units,
{
    let (x, y, z) = (a.units as int, b.units as int, c.units as int);
    if z > 0 {
        quotients_are_ordered(x * UNITS, y * UNITS, z);
    }
    if x > 0 && z >= 0 {
        vstd::arithmetic::div_mod::lemma_div_is_ordered_by_denominator(z * UNITS, x, y);
    }
    if x > 0 && z <= 0 {
        vstd::arithmetic::div_mod::lemma_div_is_ordered_by_denominator(-z * UNITS, x, y);
    }
}

/// A product has the sign that its factors give it.
proof fn product_signs(a: Fixed, b: Fixed)
    ensures
        ({
            let p = quotient(a.units * b.units, UNITS as int);
            &&& a.units >= 0 && b.units >= 0 ==> p >= 0
            &&& a.units <= 0 && b.units <= 0 ==> p >= 0
            &&& a.units >= 0 && b.units <= 0 ==> p <= 0
            &&& a.units <= 0 && b.units >= 0 ==> p <= 0
        }),
{
    let (x, y) = (a.units as int, b.units as int);
    assert((x >= 0 && y >= 0) || (x <= 0 && y <= 0) ==> x * y >= 0) by (nonlinear_arith);
    assert((x >= 0 && y <= 0) || (x <= 0 && y >= 0) ==> x * y <= 0) by (nonlinear_arith);
}

proof fn quotient_signs(a: Fixed, b: Fixed)
    requires
        b.units > 0,
    ensures
        a.units >= 0 ==> divided(a, b).units >= 0,
        a.units <= 0 ==> divided(a, b).units <= 0,
        0 <= a.units < b.units ==> divided(a, b).units <= UNITS,
        a.units > 0 && a.units < i64::MAX ==> divided(a, a).units == UNITS,
{
    let (x, y) = (a.units as int, b.units as int);
    let n = x * UNITS;
    if x >= 0 {
        vstd::arithmetic::div_mod::lemma_div_pos_is_pos(n, y);
    } else {
        vstd::arithmetic::div_mod::lemma_div_pos_is_pos(-n, y);
    }
    if 0 <= x < y {
        assert(n / y <= 1_000_000_000) by (nonlinear_arith)
            requires
                n == x * 1_000_000_000,
                0 <= x < y,
        ;
    }
    if x > 0 {
        assert(n / x == 1_000_000_000) by (nonlinear_arith)
            requires
                n == x * 1_000_000_000,
                x > 0,
        ;
    }
}

/// A positive number other than the largest is larger than its half.
proof fn only_the_largest_is_its_half(a: Fixed)
    ensures
        divided(a, Fixed { units: 2_000_000_000 }).units < a.units ==> 0 < a.units < i64::MAX,
{
    let n = a.units as int;
    if a.units <= 0 {
        assert((-n * 1_000_000_000) / 2_000_000_000 <= -n);
    }
}

proof fn powers_stay_in_unit_range(base: Fixed, exponent: nat)
    requires
        0 <= base.units <= UNITS,
    ensures
        0 <= power(base, exponent).units <= UNITS,
    decreases exponent,
{
    if exponent > 0 {
        powers_stay_in_unit_range(base, (exponent - 1) as nat);
        product_sizes(power(base, (exponent - 1) as nat), base);
    }
}

proof fn decimals_are_ordered(low: int, high: int, exponent: int)
    requires
        low <= high,
    ensures
        Fixed::decimal(low, exponent).units <= Fixed::decimal(high, exponent).units,
{
    if exponent + 9 >= 0 {
        let t = ten_to((exponent + 9) as nat);
        ten_to_is_positive((exponent + 9) as nat);
        assert(low * t <= high * t) by (nonlinear_arith)
            requires
                low <= high,
                t >= 1,
        ;
    } else {
        let t = ten_to((-(exponent + 9)) as nat);
        ten_to_is_positive((-(exponent + 9)) as nat);
        quotients_are_ordered(low, high, t);
    }
}

proof fn small_integers_are_exact(a: int, b: int)
    requires
        -1000 <= a <= 1000,
        -1000 <= b <= 1000,
    ensures
        ({
            let (x, y) = (Fixed::decimal(a, 0), Fixed::decimal(b, 0));
            &&& x.plus(y) == Fixed::decimal(a + b, 0)
            &&& x.minus(y) == Fixed::decimal(a - b, 0)
            &&& 0 <= a && 0 <= b ==> x.times(y) == Fixed::decimal(a * b, 0)
            &&& 0 <= a && 0 < b ==> Fixed::decimal(a * b, 0).over(y) == x
        }),
{
    assert(ten_to(9) == 1_000_000_000) by {
        reveal_with_fuel(ten_to, 10);
    }
    let u: int = 1_000_000_000;
    if 0 <= a && 0 <= b {
        let p = a * b;
        assert(0 <= p <= 1_000_000) by (nonlinear_arith)
            requires
                p == a * b,
                0 <= a <= 1000,
                0 <= b <= 1000,
        ;
        assert((a * u) * (b * u) == p * u * u) by (nonlinear_arith)
            requires
                p == a * b,
        ;
        assert((p * u * u) / u == p * u) by (nonlinear_arith)
            requires
                u == 1_000_000_000,
        ;
        if 0 < b {
            assert((p * u) * u == (a * u) * (b * u)) by (nonlinear_arith)
                requires
                    p == a * b,
            ;
            let y = b * u;
            let n = (a * u) * y;
            assert(n / y == a * u) by (nonlinear_arith)
                requires
                    n == (a * u) * y,
                    y > 0,
            ;
        }
    }
}

proof fn decimals_are_told_apart(low: int, high: int, places: nat)
    requires
        -1000 <= low < high <= 1000,
        places <= 9,
    ensures
        Fixed::decimal(low, -places).units < Fixed::decimal(high, -places).units,
{
    let t = ten_to((9 - places) as nat);
    ten_to_is_positive((9 - places) as nat);
    ten_to_is_positive(places);
    ten_to_adds((9 - places) as nat, places);
    assert(ten_to(9) == 1_000_000_000) by {
        reveal_with_fuel(ten_to, 10);
    }
    let rest = ten_to(places);
    assert(t <= 1_000_000_000) by (nonlinear_arith)
        requires
            t * rest == 1_000_000_000,
            t >= 1,
            rest >= 1,
    ;
    assert(-1_000_000_000_000 <= low * t < high * t <= 1_000_000_000_000) by (nonlinear_arith)
        requires
            -1000 <= low < high <= 1000,
            1 <= t <= 1_000_000_000,
    ;
}

proof fn quotients_are_ordered(low: int, high: int, d: int)
    requires
        low <= high,
        d >= 1,
    ensures
        quotient(low, d) <= quotient(high, d),
{
    vstd::arithmetic::div_mod::lemma_div_is_ordered(low, high, d);
    vstd::arithmetic::div_mod::lemma_div_is_ordered(-high, -low, d);
    if low < 0 <= high {
        vstd::arithmetic::div_mod::lemma_div_pos_is_pos(-low, d);
        vstd::arithmetic::div_mod::lemma_div_pos_is_pos(high, d);
    }
}

/// A zero behind the mantissa is made up for by the exponent.
proof fn decimal_lengthens(mantissa: int, exponent: int)
    ensures
        Fixed::decimal(10 * mantissa, exponent - 1) == Fixed::decimal(mantissa, exponent),
{
    if exponent + 8 >= 0 {
        let t = ten_to((exponent + 8) as nat);
        assert(ten_to((exponent + 9) as nat) == 10 * t);
        assert((10 * mantissa) * t == mantissa * (10 * t)) by (nonlinear_arith);
    } else {
        let k = (-(exponent + 9)) as nat;
        let t = ten_to(k);
        ten_to_is_positive(k);
        assert(ten_to(k + 1) == 10 * t);
        if mantissa >= 0 {
            vstd::arithmetic::div_mod::lemma_div_denominator(10 * mantissa, 10, t);
        } else {
            vstd::arithmetic::div_mod::lemma_div_denominator(-10 * mantissa, 10, t);
        }
        assert((10 * mantissa) / 10 == mantissa);
        assert((-10 * mantissa) / 10 == -mantissa);
        if exponent + 9 == 0 {
            assert(t == 1);
            assert(mantissa * ten_to(0) == mantissa);
        }
    }
}

impl Real for Fixed {
    open spec fn decimal(mantissa: int, exponent: int) -> Fixed {
        if exponent + 9 >= 0 {
            nearest(mantissa * ten_to((exponent + 9) as nat))
        } else {
            nearest(quotient(mantissa, ten_to((-(exponent + 9)) as nat)))
        }
    }

    open spec fn positive_infinity() -> Fixed {
        Fixed { units: i64::MAX }
    }

    open spec fn not_a_number() -> Fixed {
        Fixed { units: 0 }
    }

    open spec fn plus(self, other: Fixed) -> Fixed {
        nearest(self.units + other.units)
    }

    open spec fn minus(self, other: Fixed) -> Fixed {
        nearest(self.units - other.units)
    }

    open spec fn times(self, other: Fixed) -> Fixed {
        multiplied(self, other)
    }

    open spec fn over(self, other: Fixed) -> Fixed {
        divided(self, other)
    }

    open spec fn negated(self) -> Fixed {
        nearest(-self.units)
    }

    open spec fn fused(self, factor: Fixed, addend: Fixed) -> Fixed {
        nearest(quotient(self.units * factor.units, UNITS as int) + addend.units)
    }

    open spec fn root(self) -> Fixed {
        if self.units <= 0 {
            Fixed { units: 0 }
        } else {
            nearest(whole_root((self.units * UNITS) as nat) as int)
        }
    }

    open spec fn magnitude(self) -> Fixed {
        if self.units < 0 {
            nearest(-self.units)
        } else {
            self
        }
    }

    open spec fn larger(self, other: Fixed) -> Fixed {
        if self.units < other.units {
            other
        } else {
            self
        }
    }

    open spec fn smaller(self, other: Fixed) -> Fixed {
        if other.units < self.units {
            other
        } else {
            self
        }
    }

    open spec fn powered(self, exponent: i32) -> Fixed {
        power_of(self, exponent as int)
    }

    open spec fn finite(self) -> bool {
        true
    }

    open spec fn undefined(self) -> bool {
        false
    }

    open spec fn less(self, other: Fixed) -> bool {
        self.units < other.units
    }

    open spec fn at_most(self, other: Fixed) -> bool {
        self.units <= other.units
    }

    open spec fn same(self, other: Fixed) -> bool {
        self.units == other.units
    }

    /// The number of billionths, as in `-25e-9`.
    open spec fn shown(self) -> Seq<char> {
        if self.units < 0 {
            "-"@ + numeral((-self.units) as nat) + "e-9"@
        } else {
            numeral(self.units as nat) + "e-9"@
        }
    }

    proof fn one_equals_one() {
    }

    proof fn extremes(self, other: Fixed) {
    }

    proof fn order(self, other: Fixed, third: Fixed) {
        if self.units > 0 {
            root_is_positive(self);
        }
        zero_and_one();
        if self.units <= other.units {
            products_are_ordered(self, other, third);
            quotients_keep_the_order(self, other, third);
            if self.units >= 0 {
                whole_roots_are_ordered(
                    (self.units * UNITS) as nat,
                    (other.units * UNITS) as nat,
                );
            }
        }
    }

    proof fn signs(self, other: Fixed) {
        zero_and_one();
        product_signs(self, other);
        if other.units > 0 {
            quotient_signs(self, other);
        }
        if self.units >= 0 {
            product_sizes(self, other);
        }
        assert(self.units * other.units == other.units * self.units) by (nonlinear_arith);
    }

    proof fn midpoint(self, low: Fixed, high: Fixed) {
        zero_and_one();
        let sum = low.plus(high);
        if 0 <= self.units <= low.units && self.units <= high.units && sum.units != i64::MAX {
            let n = sum.units as int;
            assert((n * 1_000_000_000) / 2_000_000_000 == n / 2);
        }
    }

    proof fn unit_interval(self, other: Fixed) {
        zero_and_one();
        if self.units >= 0 {
            product_sizes(self, other);
        }
    }

    proof fn decimals(low: i64, high: i64, places: u32) {
        if low <= high {
            decimals_are_ordered(low as int, high as int, -places);
        }
        decimal_lengthens(low as int, -places);
        if -1000 <= low < high <= 1000 && places <= 9 {
            decimals_are_told_apart(low as int, high as int, places as nat);
        }
        if -1000 <= low <= 1000 && -1000 <= high <= 1000 {
            small_integers_are_exact(low as int, high as int);
        }
    }

    proof fn neutral(self, other: Fixed) {
        zero_and_one();
        units_are_neutral(self);
        let u = other.units as int;
        assert((-1_000_000_000 * u) == -(1_000_000_000 * u));
        assert((1_000_000_000 * u) / 1_000_000_000 == u);
        assert((-(1_000_000_000 * u)) / 1_000_000_000 == -u);
        units_are_neutral(other);
        assert(self.units * other.units == other.units * self.units) by (nonlinear_arith);
        only_the_largest_is_its_half(self);
        if self.units > 0 {
            quotient_signs(self, self);
        }
        assert(is_whole_root(1_000_000_000, 1_000_000_000_000_000_000)) by (nonlinear_arith);
        whole_root_is_unique(1_000_000_000, 1_000_000_000_000_000_000);
        assert(is_whole_root(2_000_000_000, 4_000_000_000_000_000_000)) by (nonlinear_arith);
        whole_root_is_unique(2_000_000_000, 4_000_000_000_000_000_000);
        assert(is_whole_root(500_000_000, 250_000_000_000_000_000)) by (nonlinear_arith);
        whole_root_is_unique(500_000_000, 250_000_000_000_000_000);
        assert(ten_to(7) == 10_000_000 && ten_to(8) == 100_000_000) by {
            reveal_with_fuel(ten_to, 10);
        }
        assert(ten_to(9) == 1_000_000_000) by {
            reveal_with_fuel(ten_to, 10);
        }
        let one = Fixed { units: UNITS };
        assert(one.units * self.units == self.units * one.units) by (nonlinear_arith);
        assert(power(self, 0) == one);
        assert(power(self, 1) == multiplied(power(self, 0), self));
        assert(power(self, 2) == multiplied(power(self, 1), self));
    }

    proof fn fused_operands(self, factor: Fixed, addend: Fixed) {
        zero_and_one();
        product_signs(self, factor);
        assert(self.units * factor.units == factor.units * self.units) by (nonlinear_arith);
        assert forall|other: Fixed|
            factor.at_most(other) && Fixed::decimal(0, 0).at_most(self) implies self.fused(
            factor,
            addend,
        ).at_most(#[trigger] self.fused(other, addend)) by {
            assert(self.units * factor.units <= self.units * other.units) by (nonlinear_arith)
                requires
                    factor.units <= other.units,
                    0 <= self.units,
            ;
        }
        assert forall|other: Fixed|
            factor.at_most(other) && self.at_most(Fixed::decimal(0, 0)) implies (
        #[trigger] self.fused(other, addend)).at_most(self.fused(factor, addend)) by {
            assert(self.units * other.units <= self.units * factor.units) by (nonlinear_arith)
                requires
                    factor.units <= other.units,
                    self.units <= 0,
            ;
        }
    }

    fn literal(mantissa: i64, exponent: i32) -> (r: Fixed) {
        let places: i64 = exponent as i64 + 9;
        if places >= 0 {
            lengthened(mantissa, places as u32)
        } else {
            shortened(mantissa, (-places) as u32)
        }
    }

    fn infinity() -> (r: Fixed) {
        Fixed { units: i64::MAX }
    }

    fn nan() -> (r: Fixed) {
        Fixed { units: 0 }
    }

    fn add(self, other: Fixed) -> (r: Fixed) {
        saturate(self.units as i128 + other.units as i128)
    }

    fn sub(self, other: Fixed) -> (r: Fixed) {
        saturate(self.units as i128 - other.units as i128)
    }

    fn mul(self, other: Fixed) -> (r: Fixed) {
        multiply(self, other)
    }

    fn div(self, other: Fixed) -> (r: Fixed) {
        divide_by(self, other)
    }

    fn neg(self) -> (r: Fixed) {
        saturate(-(self.units as i128))
    }

    fn mul_add(self, factor: Fixed, addend: Fixed) -> (r: Fixed) {
        saturate(divide(product(self, factor), UNITS as i128) + addend.units as i128)
    }

    fn sqrt(self) -> (r: Fixed) {
        if self.units <= 0 {
            Fixed { units: 0 }
        } else {
            let square: u128 = self.units as u128 * UNITS as u128;
            saturate(square_root(square) as i128)
        }
    }

    fn abs(self) -> (r: Fixed) {
        if self.units < 0 {
            saturate(-(self.units as i128))
        } else {
            self
        }
    }

    fn max(self, other: Fixed) -> (r: Fixed) {
        if self.units < other.units {
            other
        } else {
            self
        }
    }

    fn min(self, other: Fixed) -> (r: Fixed) {
        if other.units < self.units {
            other
        } else {
            self
        }
    }

    fn powi(self, exponent: i32) -> (r: Fixed) {
        compute_power(self, exponent as i64)
    }

    fn is_finite(self) -> (r: bool) {
        true
    }

    fn is_nan(self) -> (r: bool) {
        false
    }

    fn lt(self, other: Fixed) -> (r: bool) {
        self.units < other.units
    }

    fn le(self, other: Fixed) -> (r: bool) {
        self.units <= other.units
    }

    fn eq(self, other: Fixed) -> (r: bool) {
        self.units == other.units
    }

    fn show(self) -> (r: String) {
        if self.units < 0 {
            let size: u64 = (-(self.units as i128)) as u64;
            followed_by(joined("-", long_numeral_text(size).as_str()), "e-9")
        } else {
            followed_by(long_numeral_text(self.units as u64), "e-9")
        }
    }
}

impl Double for Fixed {
    open spec fn of_integer(n: u128) -> Fixed {
        nearest(n * UNITS)
    }

    /// The power with the whole part of the exponent.
    open spec fn raised(self, exponent: Fixed) -> Fixed {
        power_of(self, quotient(exponent.units as int, UNITS as int))
    }

    open spec fn cosine(self) -> Fixed {
        cosine_of(self)
    }

    open spec fn sine(self) -> Fixed {
        sine_of(self)
    }

    open spec fn bits(self) -> u64 {
        self.units as u64
    }

    open spec fn of_bits(bits: u64) -> Fixed {
        Fixed { units: bits as i64 }
    }

    proof fn of_bits_inverts_bits(self) {
        let units = self.units;
        assert((units as u64) as i64 == units) by (bit_vector);
    }

    proof fn integers(n: u128) {
        zero_and_one();
    }

    proof fn powers(self, exponent: Fixed) {
        zero_and_one();
        if 0 <= self.units <= UNITS && 0 <= exponent.units {
            let whole = exponent.units as int / 1_000_000_000;
            assert(whole >= 0);
            powers_stay_in_unit_range(self, whole as nat);
        }
        let one = Fixed { units: UNITS };
        units_are_neutral(self);
        assert(one.units * self.units == self.units * one.units) by (nonlinear_arith);
        assert(power(self, 0) == one);
        assert(power(self, 1) == multiplied(power(self, 0), self));
        if self.units == 0 {
            assert(multiplied(self, self) == self);
            units_are_neutral(one);
        }
    }

    fn from_integer(n: u128) -> (r: Fixed) {
        if n > 10_000_000_000 {
            assert(n * UNITS > i64::MAX);
            Fixed { units: i64::MAX }
        } else {
            saturate(n as i128 * 1_000_000_000)
        }
    }

    fn powf(self, exponent: Fixed) -> (r: Fixed) {
        let whole: i128 = divide(exponent.units as i128, UNITS as i128);
        compute_power(self, whole as i64)
    }

    fn cos(self) -> (r: Fixed) {
        compute_cosine(self)
    }

    fn sin(self) -> (r: Fixed) {
        compute_sine(self)
    }

    #[verifier::truncate]
    fn to_bits(self) -> (r: u64) {
        self.units as u64
    }

    #[verifier::truncate]
    fn from_bits(bits: u64) -> (r: Fixed) {
        Fixed { units: bits as i64 }
    }
}

impl Single for Fixed {
    type Wide = Fixed;

    open spec fn widened(self) -> Fixed {
        self
    }

    open spec fn rounded(wide: Fixed) -> Fixed {
        wide
    }

    open spec fn of_word(word: u16) -> Fixed {
        Fixed { units: (word * UNITS) as i64 }
    }

    /// The whole part, where it is a word, and zero otherwise.
    open spec fn word(self) -> u16 {
        if 0 <= self.units < 65536 * UNITS {
            (self.units as int / UNITS as int) as u16
        } else {
            0
        }
    }

    open spec fn integral(self) -> bool {
        quotient(self.units as int, UNITS as int) * UNITS == self.units
    }

    open spec fn subnormal(self) -> bool {
        false
    }

    /// Only one: a larger factor can take a product beyond the largest number, and
    /// nothing tells that it has.
    open spec fn binary(self) -> bool {
        self.units == UNITS
    }

    proof fn precisions(self, wide: Fixed) {
        zero_and_one();
        if self.units < UNITS {
            root_is_positive(nearest(UNITS - self.units));
        }
    }

    proof fn binary_scaling(self, scale: Fixed) {
        units_are_neutral(self);
    }

    proof fn words_are_exact(word: u16) {
        assert(ten_to(9) == 1_000_000_000) by {
            reveal_with_fuel(ten_to, 10);
        }
        assert((word * 1_000_000_000) / 1_000_000_000 == word);
    }

    fn widen(self) -> (r: Fixed) {
        self
    }

    fn round(wide: Fixed) -> (r: Fixed) {
        wide
    }

    fn from_word(word: u16) -> (r: Fixed) {
        Fixed { units: word as i64 * UNITS }
    }

    fn to_word(self) -> (r: u16) {
        if 0 <= self.units && self.units < 65536 * UNITS {
            (self.units as u64 / UNITS as u64) as u16
        } else {
            0
        }
    }

    fn is_integral(self) -> (r: bool) {
        let whole: i128 = divide(self.units as i128, UNITS as i128);
        whole * UNITS as i128 == self.units as i128
    }

    fn is_subnormal(self) -> (r: bool) {
        false
    }
}

/// Zero and one are neutral, and zero is equal to itself.
pub proof fn zero_and_one_are_neutral(x: Fixed)
    ensures
        x.plus(zero()) == x,
        x.minus(zero()) == x,
        x.times(one()) == x,
        x.times(zero()) == zero::<Fixed>(),
        x.over(one()) == x,
        zero::<Fixed>().same(zero()),
{
    zero_and_one();
    units_are_neutral(x);
}

} // verus!
