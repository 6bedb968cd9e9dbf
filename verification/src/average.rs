//! Averages to four decimals, as double precision shows them.
//!
//! A quotient is taken to the nearest double, of 53 binary digits, and the double to four decimals;
//! halves go to the even neighbour both times. So a quotient that lies half-way between two prices
//! goes where its double lies.
use vstd::prelude::*;

use vstd::arithmetic::div_mod::{lemma_fundamental_div_mod, lemma_fundamental_div_mod_converse};
use vstd::arithmetic::power2::{lemma2_to64, lemma_pow2_pos, lemma_pow2_unfold, pow2};

verus! {

/// The first whole number of 53 binary digits.
pub const MANTISSA: u128 = 0x10_0000_0000_0000;

/// The first whole number of more than 53 binary digits.
pub const BEYOND: u128 = 0x20_0000_0000_0000;

/// A quotient to the nearest whole number, halves to the even one.
pub open spec fn nearest_even(num: int, den: int) -> int {
    let (q, r) = (num / den, num % den);
    if 2 * r > den || (2 * r == den && q % 2 == 1) {
        q + 1
    } else {
        q
    }
}

/// How many times a quotient is doubled until it has 53 binary digits before the point.
pub open spec fn raised(num: int, den: int) -> nat
    decreases
        if num < MANTISSA * den {
            MANTISSA * den - num
        } else {
            0
        },
{
    if 0 < num < MANTISSA * den {
        1 + raised(2 * num, den)
    } else {
        0
    }
}

/// How many times a quotient is halved until it has no more than 53 binary digits before the point.
pub open spec fn lowered(num: int, den: int) -> nat
    decreases
        if num >= BEYOND * den {
            num - BEYOND * den + 1
        } else {
            0
        },
{
    if den > 0 && num >= BEYOND * den {
        1 + lowered(num, 2 * den)
    } else {
        0
    }
}

/// The double nearest to a quotient, in ten-thousandths, to the nearest whole one.
pub open spec fn ten_thousandths(num: int, den: int) -> int {
    if num >= BEYOND * den {
        let unit = pow2(lowered(num, den));
        nearest_even(num, den * unit) * unit * 10_000
    } else {
        let unit = pow2(raised(num, den));
        nearest_even(nearest_even(num * unit, den) * 10_000, unit as int)
    }
}

proof fn lemma_rounds(num: int, den: int, q: int, r: int)
    requires
        den > 0,
        num == q * den + r,
        0 <= r < den,
    ensures
        num / den == q,
        num % den == r,
        nearest_even(num, den) == if 2 * r > den || (2 * r == den && q % 2 == 1) {
            q + 1
        } else {
            q
        },
{
    lemma_fundamental_div_mod_converse(num, den, q, r);
}

/// Doubling ends between 2^52 and 2^53.
pub(crate) proof fn lemma_raised(num: int, den: int)
    requires
        0 < num < BEYOND * den,
    ensures
        MANTISSA * den <= num * pow2(raised(num, den)) < BEYOND * den,
    decreases
            if num < MANTISSA * den {
                MANTISSA * den - num
            } else {
                0
            },
{
    if num < MANTISSA * den {
        let k = raised(2 * num, den);
        lemma_raised(2 * num, den);
        lemma_pow2_unfold(k + 1);
        assert(num * (2 * pow2(k)) == (2 * num) * pow2(k)) by (nonlinear_arith);
    } else {
        lemma2_to64();
        assert(num * 1 == num);
    }
}

proof fn lemma_pow2_grows(a: nat, b: nat)
    requires
        a <= b,
    ensures
        pow2(a) <= pow2(b),
    decreases b - a,
{
    if a < b {
        lemma_pow2_grows(a, (b - 1) as nat);
        lemma_pow2_unfold(b);
        lemma_pow2_pos((b - 1) as nat);
    }
}

/// One doubling of a quotient and its rest.
proof fn lemma_doubled(num: int, den: int, unit: int, q: int, r: int)
    requires
        num * unit == q * den + r,
        0 <= r < den,
    ensures
        2 * r >= den ==> num * (2 * unit) == (2 * q + 1) * den + (2 * r - den),
        num * (2 * unit) == (2 * q) * den + 2 * r,
{
    assert(num * (2 * unit) == 2 * (num * unit)) by (nonlinear_arith);
    assert((2 * q) * den == 2 * (q * den)) by (nonlinear_arith);
    assert((2 * q + 1) * den == 2 * (q * den) + den) by (nonlinear_arith);
}

/// Whether a quotient with its rest is below a bound.
proof fn lemma_below(den: int, q: int, r: int, bound: int)
    requires
        den > 0,
        0 <= r < den,
    ensures
        q * den + r < bound * den <==> q < bound,
{
    if q < bound {
        assert((q + 1) * den <= bound * den) by (nonlinear_arith)
            requires
                q + 1 <= bound,
                den > 0,
        ;
        assert((q + 1) * den == q * den + den) by (nonlinear_arith);
    } else {
        assert(q * den >= bound * den) by (nonlinear_arith)
            requires
                q >= bound,
                den > 0,
        ;
    }
}

/// A quotient of at most 53 binary digits before the point.
fn small_quotient(num: u128, den: u128) -> (r: u128)
    requires
        0 < den <= 0x2710_0000_0000_0000_0000,
        0 < num,
        num < BEYOND * den,
    ensures
        r == ten_thousandths(num as int, den as int),
{
    let (n, d) = (Ghost(num as int), Ghost(den as int));
    let mut q: u128 = num / den;
    let mut rest: u128 = num % den;
    let mut unit: u128 = 1;
    let mut k: u32 = 0;
    proof {
        lemma_fundamental_div_mod(num as int, den as int);
        assert(den * (num as int / den as int) == (num as int / den as int) * den)
            by (nonlinear_arith);
        lemma2_to64();
        assert(n@ * 1 == n@);
        lemma_below(d@, q as int, rest as int, BEYOND as int);
    }
    while q < MANTISSA && k < 68
        invariant
            k <= 68,
            n@ == num,
            d@ == den,
            0 < n@ < BEYOND * d@,
            0 < den <= 0x2710_0000_0000_0000_0000,
            q < BEYOND,
            rest < den,
            unit == pow2(k as nat),
            unit <= 0x10_0000_0000_0000_0000,
            k < 68 ==> unit < 0x10_0000_0000_0000_0000,
            n@ * unit == q * d@ + rest,
            n@ * unit > 0,
            raised(n@, d@) == k + raised(n@ * unit, d@),
        decreases 68 - k,
    {
        let ghost before = n@ * unit;
        proof {
            lemma_below(d@, q as int, rest as int, MANTISSA as int);
            lemma_doubled(n@, d@, unit as int, q as int, rest as int);
            lemma_pow2_unfold((k + 1) as nat);
            lemma_pow2_grows((k + 1) as nat, 68);
            lemma_unit();
            if k + 1 < 68 {
                lemma_pow2_grows((k + 2) as nat, 68);
                lemma_pow2_unfold((k + 2) as nat);
            }
            assert(n@ * (2 * unit) == 2 * before) by (nonlinear_arith)
                requires
                    before == n@ * unit,
            ;
        }
        let twice: u128 = 2 * rest;
        if twice >= den {
            q = 2 * q + 1;
            rest = twice - den;
        } else {
            q = 2 * q;
            rest = twice;
        }
        unit = 2 * unit;
        k += 1;
    }
    if q < MANTISSA {
        proof {
            lemma_below(d@, q as int, rest as int, MANTISSA as int);
            lemma_vanishes(n@, d@);
        }
        return 0;
    }
    proof {
        lemma_below(d@, q as int, rest as int, MANTISSA as int);
        assert(raised(n@, d@) == k);
        lemma_rounds(n@ * unit, d@, q as int, rest as int);
    }
    let up = 2 * rest > den || (2 * rest == den && q % 2 == 1);
    let mantissa: u128 = if up {
        q + 1
    } else {
        q
    };
    half_even(mantissa * 10_000, unit)
}

proof fn lemma_unit()
    ensures
        pow2(68) == 0x10_0000_0000_0000_0000,
{
    lemma2_to64();
    lemma_pow2_unfold(65);
    lemma_pow2_unfold(66);
    lemma_pow2_unfold(67);
    lemma_pow2_unfold(68);
}

/// What is doubled so often is less than half a ten-thousandth.
proof fn lemma_vanishes(num: int, den: int)
    requires
        0 < num < BEYOND * den,
        0 < den,
        raised(num, den) > 68,
    ensures
        ten_thousandths(num, den) == 0,
{
    let k = raised(num, den);
    let unit = pow2(k) as int;
    let top = num * unit;
    lemma_raised(num, den);
    lemma_fundamental_div_mod(top, den);
    let (q, r) = (top / den, top % den);
    assert(den * q == q * den) by (nonlinear_arith);
    lemma_below(den, q, r, BEYOND as int);
    let m = nearest_even(top, den);
    assert(0 <= q) by (nonlinear_arith)
        requires
            q * den + r == top,
            r < den,
            den > 0,
            top > 0,
    ;
    assert(0 <= m <= BEYOND);
    lemma_pow2_grows(68, k);
    lemma_unit();
    assert(2 * (m * 10_000) < unit);
    lemma_rounds(m * 10_000, unit, 0, m * 10_000);
}

/// A quotient to the nearest whole number, halves to the even one.
fn half_even(num: u128, den: u128) -> (r: u128)
    requires
        0 < den <= 0x10_0000_0000_0000_0000,
        num <= 0x1000_0000_0000_0000_0000,
    ensures
        r == nearest_even(num as int, den as int),
{
    let q: u128 = num / den;
    let rest: u128 = num % den;
    proof {
        lemma_fundamental_div_mod(num as int, den as int);
        assert(0 <= q <= num) by (nonlinear_arith)
            requires
                num == den * q + rest,
                den >= 1,
                rest >= 0,
                q >= 0,
        ;
    }
    if 2 * rest > den || (2 * rest == den && q % 2 == 1) {
        q + 1
    } else {
        q
    }
}

/// A quotient of more binary digits before the point than a double has.
fn large_quotient(num: u128, den: u128) -> (r: u128)
    requires
        10_000 <= den <= 0x2710_0000_0000_0000_0000,
        num <= 0x8000_0000_0000_0000_0000_0000_0000_0000,
        num >= BEYOND * den,
    ensures
        r == ten_thousandths(num as int, den as int),
{
    let (n, d) = (Ghost(num as int), Ghost(den as int));
    let q: u128 = num / den;
    let rest: u128 = num % den;
    let mut unit: u128 = 1;
    let ghost mut t: nat = 0;
    proof {
        lemma_fundamental_div_mod(num as int, den as int);
        assert(den * q == q * den) by (nonlinear_arith);
        lemma2_to64();
        lemma_below(d@, q as int, rest as int, BEYOND as int);
        assert(q * 10_000 <= num) by (nonlinear_arith)
            requires
                num == q * den + rest,
                rest >= 0,
                den >= 10_000,
                q >= 0,
        ;
        assert(d@ * 1 == d@);
    }
    while q / unit >= BEYOND
        invariant
            n@ == num,
            d@ == den,
            10_000 <= den,
            num == q * den + rest,
            rest < den,
            q * 10_000 <= num <= 0x8000_0000_0000_0000_0000_0000_0000_0000,
            unit == pow2(t),
            unit >= 1,
            t == 0 ==> unit == 1 && q >= BEYOND,
            t > 0 ==> unit % 2 == 0,
            q >= MANTISSA * unit,
            lowered(n@, d@) == t + lowered(n@, d@ * unit),
        decreases q / unit,
    {
        proof {
            lemma_fundamental_div_mod(q as int, unit as int);
            let hi = q as int / unit as int;
            let low = q as int % unit as int;
            assert(unit * hi == hi * unit) by (nonlinear_arith);
            lemma_split(n@, d@, q as int, rest as int, unit as int, hi, low);
            lemma_below(d@ * unit, hi, low * d@ + rest, BEYOND as int);
            lemma_pow2_unfold(t + 1);
            assert(q >= BEYOND * unit) by (nonlinear_arith)
                requires
                    q == hi * unit + low,
                    hi >= BEYOND,
                    low >= 0,
                    unit >= 1,
            ;
            assert(2 * (d@ * unit) == d@ * (2 * unit)) by (nonlinear_arith);
            lemma_halves(q as int, unit as int);
            t = t + 1;
        }
        unit = 2 * unit;
    }
    let hi: u128 = q / unit;
    let low: u128 = q % unit;
    proof {
        lemma_fundamental_div_mod(q as int, unit as int);
        assert(unit * hi == hi * unit) by (nonlinear_arith);
        lemma_split(n@, d@, q as int, rest as int, unit as int, hi as int, low as int);
        lemma_below(d@ * unit, hi as int, low * d@ + rest, BEYOND as int);
        assert(t > 0);
        assert(lowered(n@, d@ * unit) == 0);
    }
    let half: u128 = unit / 2;
    let up = low > half || (low == half && (rest > 0 || hi % 2 == 1));
    proof {
        lemma_against_half(d@, unit as int, half as int, low as int, rest as int);
        lemma_rounds(n@, d@ * unit, hi as int, low * d@ + rest);
        lemma_fits(num as int, q as int, unit as int, hi as int, low as int);
    }
    let mantissa: u128 = if up {
        hi + 1
    } else {
        hi
    };
    assert(mantissa == nearest_even(n@, d@ * unit));
    mantissa * unit * 10_000
}

/// A quotient of a quotient, with its rest.
proof fn lemma_split(num: int, den: int, q: int, rest: int, unit: int, hi: int, low: int)
    requires
        num == q * den + rest,
        q == hi * unit + low,
        0 <= rest < den,
        0 <= low < unit,
    ensures
        num == hi * (den * unit) + (low * den + rest),
        0 <= low * den + rest < den * unit,
        den * unit > 0,
{
    assert((hi * unit + low) * den == hi * (den * unit) + low * den) by (nonlinear_arith);
    assert(0 <= low * den) by (nonlinear_arith)
        requires
            low >= 0,
            den > 0,
    ;
    assert(low * den + den <= den * unit) by (nonlinear_arith)
        requires
            low + 1 <= unit,
            den > 0,
    ;
}

proof fn lemma_halves(q: int, unit: int)
    requires
        unit >= 1,
        q / unit >= BEYOND,
    ensures
        q / (2 * unit) < q / unit,
        q / (2 * unit) >= 0,
{
    lemma_fundamental_div_mod(q, unit);
    lemma_fundamental_div_mod(q, 2 * unit);
    let (a, b) = (q / unit, q / (2 * unit));
    let (r, s) = (q % unit, q % (2 * unit));
    assert(b < a) by (nonlinear_arith)
        requires
            q == unit * a + r,
            q == (2 * unit) * b + s,
            0 <= r < unit,
            0 <= s < 2 * unit,
            unit >= 1,
            a >= 2,
    ;
    assert(b >= 0) by (nonlinear_arith)
        requires
            q == (2 * unit) * b + s,
            0 <= s < 2 * unit,
            q == unit * a + r,
            r >= 0,
            unit >= 1,
            a >= 2,
    ;
}

/// How a rest stands to half of what it is the rest of.
proof fn lemma_against_half(den: int, unit: int, half: int, low: int, rest: int)
    requires
        unit == 2 * half,
        0 <= rest < den,
        0 <= low < unit,
    ensures
        2 * (low * den + rest) > den * unit <==> low > half || (low == half && rest > 0),
        2 * (low * den + rest) == den * unit <==> low == half && rest == 0,
{
    assert(den * unit == 2 * (half * den)) by (nonlinear_arith)
        requires
            unit == 2 * half,
    ;
    if low > half {
        assert(low * den >= half * den + den) by (nonlinear_arith)
            requires
                low >= half + 1,
                den > 0,
        ;
    } else if low < half {
        assert(low * den + den <= half * den) by (nonlinear_arith)
            requires
                low + 1 <= half,
                den > 0,
        ;
    }
}

/// The result stays within the range of its field.
proof fn lemma_fits(num: int, q: int, unit: int, hi: int, low: int)
    requires
        q * 10_000 <= num <= 0x8000_0000_0000_0000_0000_0000_0000_0000,
        q == hi * unit + low,
        low >= 0,
        unit >= 1,
        hi >= 0,
        q >= MANTISSA * unit,
    ensures
        (hi + 1) * unit <= u128::MAX,
        hi * unit <= (hi + 1) * unit,
        (hi + 1) * unit * 10_000 <= u128::MAX,
        hi * unit * 10_000 <= u128::MAX,
{
    assert((hi + 1) * unit == hi * unit + unit) by (nonlinear_arith);
    assert(hi * unit >= 0) by (nonlinear_arith)
        requires
            hi >= 0,
            unit >= 1,
    ;
}

/// A quotient in ten-thousandths, as double precision shows it.
pub fn quotient(num: u128, den: u128) -> (r: u128)
    requires
        10_000 <= den <= 0x2710_0000_0000_0000_0000,
        num <= 0x8000_0000_0000_0000_0000_0000_0000_0000,
    ensures
        r == ten_thousandths(num as int, den as int),
{
    if num == 0 {
        proof {
            lemma2_to64();
            assert(0 * 1 == 0);
            lemma_rounds(0, den as int, 0, 0);
            lemma_rounds(0, 1, 0, 0);
        }
        return 0;
    }
    let whole: u128 = num / den;
    proof {
        lemma_fundamental_div_mod(num as int, den as int);
        let q = num as int / den as int;
        assert(den * q == q * den) by (nonlinear_arith);
        lemma_below(den as int, q, num as int % den as int, BEYOND as int);
    }
    if whole >= BEYOND {
        large_quotient(num, den)
    } else {
        small_quotient(num, den)
    }
}

} // verus!
