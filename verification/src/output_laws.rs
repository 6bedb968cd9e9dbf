//! What written numbers, prices, tables and lists say when they are read.
use vstd::prelude::*;

use crate::model::Vwap;

verus! {

// ---- numbers and prices ------------------------------------------------------------------

pub open spec fn is_numeral(c: char) -> bool {
    48 <= c as int <= 57
}

/// The numerals of a text, without what stands between them.
pub open spec fn numerals(text: Seq<char>) -> Seq<char> {
    text.filter(|c: char| is_numeral(c))
}

/// The number that numerals stand for, the first weighing most.
pub open spec fn weight(text: Seq<char>) -> int {
    text.fold_left(0int, |n: int, c: char| 10 * n + (c as int - 48))
}

/// The number that a text shows, signs, points and commas aside.
pub open spec fn shown(text: Seq<char>) -> int {
    weight(numerals(text))
}

proof fn lemma_weight_push(text: Seq<char>, c: char)
    ensures
        weight(text.push(c)) == 10 * weight(text) + (c as int - 48),
{
    assert(text.push(c).drop_last() =~= text);
}

proof fn lemma_numerals_add(a: Seq<char>, b: Seq<char>)
    ensures
        numerals(a + b) == numerals(a) + numerals(b),
{
    Seq::filter_distributes_over_add(a, b, |c: char| is_numeral(c));
}

pub(crate) proof fn lemma_all_numerals(text: Seq<char>)
    requires
        forall|i: int| 0 <= i < text.len() ==> is_numeral(#[trigger] text[i]),
    ensures
        numerals(text) == text,
    decreases text.len(),
{
    reveal(Seq::filter);
    if text.len() > 0 {
        let init = text.drop_last();
        assert forall|i: int| 0 <= i < init.len() implies is_numeral(#[trigger] init[i]) by {
            assert(init[i] == text[i]);
        }
        lemma_all_numerals(init);
        assert(is_numeral(text[text.len() - 1]));
        assert(init.push(text.last()) =~= text);
    } else {
        assert(numerals(text) =~= text);
    }
}

proof fn lemma_no_numeral(c: char)
    requires
        !is_numeral(c),
    ensures
        numerals(seq![c]) == Seq::<char>::empty(),
{
    reveal(Seq::filter);
    let s = seq![c];
    assert(s.drop_last() =~= Seq::<char>::empty());
    assert(s.last() == c);
    assert(s.drop_last().filter(|c: char| is_numeral(c)) =~= Seq::<char>::empty());
}

/// A number is written with its decimal digits alone, without needless zeros before them, and reads
/// back as itself.
pub proof fn numbers_are_written_in_decimal(n: nat)
    ensures
        weight(crate::text::decimal(n)) == n,
        shown(crate::text::decimal(n)) == n,
        forall|i: int|
            0 <= i < crate::text::decimal(n).len() ==> is_numeral(
                #[trigger] crate::text::decimal(n)[i],
            ),
        crate::text::decimal(n).len() > 0,
        n > 0 ==> crate::text::decimal(n)[0] != '0',
    decreases n,
{
    let text = crate::text::decimal(n);
    if n >= 10 {
        numbers_are_written_in_decimal(n / 10);
        let before = crate::text::decimal(n / 10);
        lemma_weight_push(before, text.last());
        assert(text[0] == before[0]);
        assert forall|i: int| 0 <= i < text.len() implies is_numeral(#[trigger] text[i]) by {
            if i < before.len() {
                assert(text[i] == before[i]);
            }
        }
    } else {
        reveal_with_fuel(Seq::fold_left, 2);
        assert(text =~= Seq::<char>::empty().push(text[0]));
        lemma_weight_push(Seq::<char>::empty(), text[0]);
    }
    lemma_all_numerals(text);
}

/// Grouping puts a comma before every third numeral from the end and changes none of them.
pub proof fn commas_stand_at_the_thousands(digits: Seq<char>)
    requires
        forall|i: int| 0 <= i < digits.len() ==> is_numeral(#[trigger] digits[i]),
    ensures
        ({
            let text = crate::output::grouped(digits);
            &&& numerals(text) == digits
            &&& digits.len() > 0 ==> text.len() == digits.len() + (digits.len() - 1) / 3
            &&& forall|k: int|
                0 <= k < text.len() ==> (#[trigger] text[text.len() - 1 - k] == ',' <==> k % 4 == 3)
        }),
    decreases digits.len(),
{
    let text = crate::output::grouped(digits);
    if digits.len() <= 3 {
        lemma_all_numerals(digits);
        assert forall|k: int| 0 <= k < text.len() implies (#[trigger] text[text.len() - 1 - k] == ','
            <==> k % 4 == 3) by {
            assert(is_numeral(digits[text.len() - 1 - k]));
        }
    } else {
        let n = digits.len() - 3;
        let (a, b) = (digits.take(n), digits.skip(n));
        assert forall|i: int| 0 <= i < a.len() implies is_numeral(#[trigger] a[i]) by {
            assert(a[i] == digits[i]);
        }
        assert forall|i: int| 0 <= i < b.len() implies is_numeral(#[trigger] b[i]) by {
            assert(b[i] == digits[n + i]);
        }
        commas_stand_at_the_thousands(a);
        let head = crate::output::grouped(a);
        lemma_all_numerals(b);
        lemma_numerals_add(head.push(','), b);
        lemma_numerals_add(head, seq![',']);
        lemma_no_numeral(',');
        assert(head.push(',') =~= head + seq![',']);
        assert(a + Seq::<char>::empty() =~= a);
        assert(a + b =~= digits);
        assert forall|k: int| 0 <= k < text.len() implies (#[trigger] text[text.len() - 1 - k] == ','
            <==> k % 4 == 3) by {
            if k < 3 {
                assert(text[text.len() - 1 - k] == b[2 - k]);
                assert(is_numeral(b[2 - k]));
            } else if k > 3 {
                assert(text[text.len() - 1 - k] == head[head.len() - 1 - (k - 4)]);
            }
        }
    }
}

/// A grouped number shows its magnitude, behind a minus sign if it is below zero.
pub proof fn grouped_numbers_read_back(value: int)
    ensures
        ({
            let text = crate::output::comma_text(value);
            &&& shown(text) == crate::output::absolute(value)
            &&& crate::output::absolute(value) == if value < 0 {
                -value
            } else {
                value
            }
            &&& text.len() > 0
            &&& text[0] == '-' <==> value < 0
        }),
{
    let n = crate::output::absolute(value) as nat;
    let digits = crate::text::decimal(n);
    numbers_are_written_in_decimal(n);
    commas_stand_at_the_thousands(digits);
    let text = crate::output::grouped(digits);
    lemma_no_numeral('-');
    lemma_numerals_add(seq!['-'], text);
    assert(Seq::<char>::empty() + digits =~= digits);
    if text[0] == '-' {
        lemma_first_of_group(digits);
    }
}

proof fn lemma_first_of_group(digits: Seq<char>)
    requires
        digits.len() > 0,
    ensures
        crate::output::grouped(digits).len() > 0,
        crate::output::grouped(digits)[0] == digits[0],
    decreases digits.len(),
{
    if digits.len() > 3 {
        lemma_first_of_group(digits.take(digits.len() - 3));
    }
}

proof fn lemma_four(n: int)
    requires
        0 <= n < 10_000,
    ensures
        ({
            let d = crate::output::four_digits(n);
            &&& d.len() == 4
            &&& forall|i: int| 0 <= i < 4 ==> is_numeral(#[trigger] d[i])
            &&& 1_000 * (d[0] as int - 48) + 100 * (d[1] as int - 48) + 10 * (d[2] as int - 48) + (
            d[3] as int - 48) == n
        }),
{
}

proof fn lemma_units(negative: bool, n: int)
    requires
        n >= 0,
    ensures
        ({
            let text = crate::output::units_text(negative, n);
            &&& shown(text) == n
            &&& text.len() >= 6
            &&& text[text.len() - 5] == '.'
            &&& text[0] == '-' <==> negative
        }),
{
    let (whole, rest) = (n / 10_000, n % 10_000);
    let digits = crate::text::decimal(whole as nat);
    let d = crate::output::four_digits(rest);
    numbers_are_written_in_decimal(whole as nat);
    commas_stand_at_the_thousands(digits);
    lemma_four(rest);
    lemma_all_numerals(d);
    lemma_first_of_group(digits);
    let sign: Seq<char> = if negative {
        seq!['-']
    } else {
        Seq::empty()
    };
    let g = crate::output::grouped(digits);
    lemma_no_numeral('-');
    lemma_no_numeral('.');
    lemma_all_numerals(Seq::<char>::empty());
    lemma_numerals_add(sign, g);
    lemma_numerals_add(sign + g, seq!['.']);
    lemma_numerals_add(sign + g + seq!['.'], d);
    assert(Seq::<char>::empty() + digits =~= digits);
    assert(digits + Seq::<char>::empty() =~= digits);
    let e = digits;
    assert(e + d =~= e.push(d[0]).push(d[1]).push(d[2]).push(d[3]));
    lemma_weight_push(e, d[0]);
    lemma_weight_push(e.push(d[0]), d[1]);
    lemma_weight_push(e.push(d[0]).push(d[1]), d[2]);
    lemma_weight_push(e.push(d[0]).push(d[1]).push(d[2]), d[3]);
    let text = crate::output::units_text(negative, n);
    assert(text[text.len() - 5] == '.');
    assert(is_numeral(digits[0]));
}

/// A price shows its units with the point before the last four numerals, behind a minus sign if it is
/// below zero; a missing one is a dash.
pub proof fn prices_read_back(units: int)
    ensures
        ({
            let text = crate::output::price_text(Some(units));
            &&& shown(text) == if units < 0 {
                -units
            } else {
                units
            }
            &&& text.len() >= 6
            &&& text[text.len() - 5] == '.'
            &&& text[0] == '-' <==> units < 0
        }),
        crate::output::price_text(None) == seq!['-'],
{
    lemma_units(
        units < 0,
        if units < 0 {
            -units
        } else {
            units
        },
    );
}

/// An average price of its own shows as that price; one without volume as a dash.
pub proof fn stored_averages_read_back(price: u32, volume: int)
    ensures
        crate::output::vwap_text(Vwap::Price(price), volume) == crate::output::price_text(
            Some(price as int),
        ),
        crate::output::vwap_text(Vwap::Undefined, volume) == crate::output::price_text(None),
        forall|mass: i128|
            #[trigger] crate::output::vwap_text(Vwap::Mass(mass), 0) == crate::output::price_text(
                None,
            ),
{
}

/// The average of trades shows as the mass over the volume, to the nearest unit but for what double
/// precision cannot hold; behind a minus sign where just one of the two is below zero.
pub proof fn averages_are_mass_over_volume(mass: i128, volume: i64)
    requires
        volume != 0,
        crate::output::absolute(mass as int) < 0x4000_0000 * (10_000 * crate::output::absolute(
            volume as int,
        )),
    ensures
        ({
            let text = crate::output::vwap_text(Vwap::Mass(mass), volume as int);
            let (m, v) = (
                if mass < 0 {
                    -mass
                } else {
                    mass as int
                },
                if volume < 0 {
                    -volume
                } else {
                    volume as int
                },
            );
            let apart = shown(text) * v - m;
            &&& 2_000 * apart <= 1_003 * v
            &&& -2_000 * apart <= 1_003 * v
            &&& text.len() >= 6
            &&& text[text.len() - 5] == '.'
            &&& text[0] == '-' <==> (mass < 0 && volume > 0) || (mass > 0 && volume < 0)
        }),
{
    let (m, v) = (crate::output::absolute(mass as int), crate::output::absolute(volume as int));
    let t = crate::average::ten_thousandths(m, 10_000 * v);
    lemma_average(m, 10_000 * v);
    lemma_units(mass != 0 && (mass < 0) != (volume < 0), t);
    let den = 10_000 * v;
    assert(t * den == 10_000 * (t * v)) by (nonlinear_arith)
        requires
            den == 10_000 * v,
    ;
}

proof fn lemma_half(num: int, den: int)
    requires
        den > 0,
        num >= 0,
    ensures
        ({
            let q = crate::average::nearest_even(num, den);
            &&& q >= 0
            &&& 2 * (q * den - num) <= den
            &&& 2 * (num - q * den) <= den
        }),
{
    vstd::arithmetic::div_mod::lemma_fundamental_div_mod(num, den);
    let (q, r) = (num / den, num % den);
    assert(den * q == q * den && (q + 1) * den == q * den + den) by (nonlinear_arith);
    assert(q >= 0) by (nonlinear_arith)
        requires
            q == num / den,
            num >= 0,
            den > 0,
    ;
}

/// What is rounded to 53 binary digits and then to ten-thousandths is that close to the quotient.
proof fn lemma_average(num: int, den: int)
    requires
        den > 0,
        0 <= num < 0x4000_0000 * den,
    ensures
        ({
            let t = crate::average::ten_thousandths(num, den);
            &&& t >= 0
            &&& 2_000 * (t * den - 10_000 * num) <= 1_003 * den
            &&& -2_000 * (t * den - 10_000 * num) <= 1_003 * den
        }),
{
    let t = crate::average::ten_thousandths(num, den);
    let k = crate::average::raised(num, den);
    let unit = vstd::arithmetic::power2::pow2(k) as int;
    assert(num < crate::average::BEYOND * den);
    vstd::arithmetic::power2::lemma_pow2_pos(k);
    if num == 0 {
        assert(0 * unit == 0);
        lemma_half(0, den);
        vstd::arithmetic::power2::lemma2_to64();
        let m = crate::average::nearest_even(0, den);
        assert(0int / den == 0 && 0int % den == 0) by (nonlinear_arith)
            requires
                den > 0,
        ;
        assert(m == 0);
        assert(0int / 1 == 0 && 0int % 1 == 0);
        assert(t == 0);
    } else {
        crate::average::lemma_raised(num, den);
        assert(unit >= 0x40_0000) by (nonlinear_arith)
            requires
                num * unit >= 0x10_0000_0000_0000 * den,
                num < 0x4000_0000 * den,
                num > 0,
                unit > 0,
                den > 0,
        ;
        let top = num * unit;
        assert(top >= 0) by (nonlinear_arith)
            requires
                top == num * unit,
                num > 0,
                unit > 0,
        ;
        lemma_half(top, den);
        let m = crate::average::nearest_even(top, den);
        lemma_half(m * 10_000, unit);
        let a = t * unit - m * 10_000;
        let b = m * den - top;
        let e = t * den - 10_000 * num;
        assert(e * unit == a * den + 10_000 * b) by (nonlinear_arith)
            requires
                a == t * unit - m * 10_000,
                b == m * den - num * unit,
                e == t * den - 10_000 * num,
        ;
        lemma_error(e, unit, den, a, b);
    }
}

proof fn lemma_error(e: int, unit: int, den: int, a: int, b: int)
    requires
        unit >= 0x40_0000,
        den > 0,
        e * unit == a * den + 10_000 * b,
        2 * a <= unit,
        -2 * a <= unit,
        2 * b <= den,
        -2 * b <= den,
    ensures
        2_000 * e <= 1_003 * den,
        -2_000 * e <= 1_003 * den,
{
    assert(2 * (a * den) <= unit * den && -2 * (a * den) <= unit * den) by (nonlinear_arith)
        requires
            2 * a <= unit,
            -2 * a <= unit,
            den > 0,
    ;
    assert(0x40_0000 * den <= unit * den) by (nonlinear_arith)
        requires
            unit >= 0x40_0000,
            den > 0,
    ;
    let w = unit * den;
    assert(2_000 * (e * unit) <= 1_003 * w && -2_000 * (e * unit) <= 1_003 * w);
    assert(2_000 * e <= 1_003 * den && -2_000 * e <= 1_003 * den) by (nonlinear_arith)
        requires
            2_000 * (e * unit) <= 1_003 * w,
            -2_000 * (e * unit) <= 1_003 * w,
            w == unit * den,
            unit > 0,
    ;
}

} // verus!
