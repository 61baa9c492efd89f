//! What holds of the numbers that are read, rounded and written.
use vstd::prelude::*;
use vstd::arithmetic::div_mod::lemma_fundamental_div_mod;
use vstd::arithmetic::power::{lemma_pow0, lemma_pow1, lemma_pow_adds, lemma_pow_positive, pow};
use vstd::arithmetic::power2::{
    lemma2_to64, lemma2_to64_rest, lemma_pow2_adds, lemma_pow2_pos, lemma_pow2_strictly_increases,
    pow2,
};
use crate::arith::{bits, exceeds, fixed, product, sum, to_signed, to_unsigned, under};
use crate::digits::{
    all_digits, decimal, digit_value, lemma_decimal_digits, lemma_digit_char, numeral, padded,
    parse_unsigned, signed_decimal,
};
use crate::double::{
    Double, EXPONENT_MAX, Magnitude, half_even, lemma_nearest_wf, lemma_spacing_exists,
    lemma_spacing_is, nearest, spacing,
};
use crate::pairing_laws::padded_digits_are_the_number;

verus! {

// ---- digits -------------------------------------------------------------------------------------

/// Digits after digits: the first stand for so many more powers of ten.
pub proof fn numerals_add_up(a: Seq<char>, b: Seq<char>)
    ensures
        numeral(a + b) == numeral(a) * pow(10, b.len()) + numeral(b),
    decreases b.len(),
{
    if b.len() == 0 {
        lemma_pow0(10);
        assert(a + b =~= a);
    } else {
        let c = b.drop_last();
        numerals_add_up(a, c);
        assert((a + b).drop_last() =~= a + c);
        assert((a + b).last() == b.last());
        lemma_pow1(10);
        lemma_pow_adds(10, c.len(), 1);
        let (x, p) = (numeral(a) as int, pow(10, c.len()));
        assert((x * p + numeral(c)) * 10 + digit_value(b.last()) == x * (p * 10) + (numeral(c) * 10
            + digit_value(b.last()))) by (nonlinear_arith);
    }
}

/// A number is written without a leading zero, and its digits stand for it.
pub proof fn decimals_are_plain(n: nat)
    ensures
        all_digits(decimal(n)),
        numeral(decimal(n)) == n,
        decimal(n).len() > 0,
        decimal(n).len() > 1 ==> decimal(n)[0] != '0',
        n > 0 ==> decimal(n)[0] != '0',
    decreases n,
{
    lemma_decimal_digits(n);
    if n >= 10 {
        decimals_are_plain(n / 10);
        assert(decimal(n)[0] == decimal(n / 10)[0]);
    } else {
        lemma_digit_char(n);
    }
}

/// A signed number is written with a minus sign exactly if it is negative, and
/// its digits stand for its size.
pub proof fn signed_decimals_are_plain(n: int)
    ensures
        n < 0 ==> signed_decimal(n) == seq!['-'] + decimal((-n) as nat),
        n >= 0 ==> signed_decimal(n) == decimal(n as nat),
{
}

/// A number is read from its digits, with or without a plus sign and leading
/// zeros, if it is not too large; nothing else is read.
pub proof fn unsigned_numbers_are_their_digits(d: Seq<char>, max: nat)
    ensures
        d.len() > 0 && all_digits(d) ==> parse_unsigned(seq!['+'] + d, max) == parse_unsigned(
            d,
            max,
        ),
        d.len() > 0 && all_digits(d) ==> parse_unsigned(d, max) == (if numeral(d) <= max {
            Some(numeral(d))
        } else {
            None
        }),
        parse_unsigned(d, max) is Some ==> d.len() > 0 && (all_digits(d) || (d[0] == '+'
            && all_digits(d.drop_first()) && d.len() > 1)),
{
    assert((seq!['+'] + d).drop_first() =~= d);
    if d.len() > 0 && all_digits(d) {
        assert(crate::text::is_digit(d[0]));
    }
}

// ---- rounding -----------------------------------------------------------------------------------

/// Whether `a` and `b` are no more than `e` apart.
pub open spec fn near(a: int, b: int, e: int) -> bool {
    -e <= a - b <= e
}

/// A rounded quotient is within half of the exact one, and even where it is
/// just half away.
pub proof fn rounding_is_to_the_nearest(n: nat, d: nat)
    requires
        d > 0,
    ensures
        near(2 * (half_even(n, d) * d) as int, 2 * n as int, d as int),
        2 * (half_even(n, d) * d) == 2 * n + d || 2 * (half_even(n, d) * d) + d == 2 * n
            ==> half_even(n, d) % 2 == 0,
{
    let (q, r) = (n / d, n % d);
    lemma_fundamental_div_mod(n as int, d as int);
    assert(q * d == d * q && (q + 1) * d == d * q + d) by (nonlinear_arith);
}

/// Whether `text` shows `v` with `places` digits after the point: a minus sign
/// exactly if `v` has one, digits without a superfluous zero, the point, and
/// digits; all of them, as one number, are nearest to `v` in units of the last
/// place, and even at a tie.
pub open spec fn shows(text: Seq<char>, v: Double, places: nat) -> bool {
    exists|whole: Seq<char>, fraction: Seq<char>| #[trigger] shows_as(text, v, places, whole, fraction)
}

pub open spec fn shows_as(
    text: Seq<char>,
    v: Double,
    places: nat,
    whole: Seq<char>,
    fraction: Seq<char>,
) -> bool {
    let n = numeral(whole + fraction);
    let exact = v.units() * pow(10, places);
    let one = pow2(1074) as int;
    &&& text == (if v.negative {
        seq!['-']
    } else {
        seq![]
    }) + whole + seq!['.'] + fraction
    &&& all_digits(whole) && whole.len() > 0
    &&& whole.len() > 1 ==> whole[0] != '0'
    &&& all_digits(fraction) && fraction.len() == places
    &&& near(2 * (n * one), 2 * exact, one)
    &&& 2 * (n * one) == 2 * exact + one || 2 * (n * one) + one == 2 * exact ==> n % 2 == 0
}

/// A finite number is shown as it is, sign and size, to the nearest last place.
pub proof fn fixed_numbers_show_their_value(v: Double, places: nat)
    ensures
        shows(fixed(v, places), v, places),
{
    lemma_pow_positive(10, places);
    lemma_pow2_pos(1074);
    let scale = pow(10, places) as nat;
    let n = half_even(v.units() * scale, pow2(1074));
    let whole = decimal(n / scale);
    let fraction = padded(n % scale, places);
    rounding_is_to_the_nearest(v.units() * scale, pow2(1074));
    decimals_are_plain(n / scale);
    padded_digits_are_the_number(n % scale, places);
    numerals_add_up(whole, fraction);
    lemma_fundamental_div_mod(n as int, scale as int);
    assert((n / scale) * scale == scale * (n / scale)) by (nonlinear_arith);
    assert((n % scale) % scale == n % scale) by {
        vstd::arithmetic::div_mod::lemma_mod_twice(n as int, scale as int);
    }
    assert(numeral(whole + fraction) == n);
    assert(shows_as(fixed(v, places), v, places, whole, fraction));
}

// ---- doubles ------------------------------------------------------------------------------------

/// The size of a finite magnitude, in units of 2^-1074.
pub open spec fn units_in(m: Magnitude) -> nat {
    Double { negative: false, magnitude: m }.units()
}

/// The double nearest to a ratio differs from it by no more than one part in
/// 2^53, or half of the smallest double; it is infinite only for ratios of 2^1023
/// and more.
pub proof fn the_nearest_double_is_near(n: nat, d: nat)
    requires
        d > 0,
    ensures
        nearest(n, d) is Finite ==> near(
            (pow2(53) * (units_in(nearest(n, d)) * d)) as int,
            (pow2(53) * (n * pow2(1074))) as int,
            (n * pow2(1074) + pow2(52) * d) as int,
        ),
        n < pow2(1023) * d ==> nearest(n, d) is Finite,
        !(nearest(n, d) is NotANumber),
{
    lemma2_to64();
    lemma2_to64_rest();
    lemma_nearest_wf(n, d);
    lemma_spacing_exists(n, d);
    let e = spacing(n, d);
    let g = pow2(e);
    let a = n * pow2(1074);
    lemma_pow2_pos(e);
    assert(d * g > 0) by (nonlinear_arith)
        requires
            d > 0,
            g > 0,
    ;
    let m = half_even(a, d * g);
    rounding_is_to_the_nearest(a, d * g);
    lemma_pow2_adds(52, e);
    lemma_pow2_adds(53, e);
    lemma_pow2_adds(1, e);
    if n < pow2(1023) * d {
        lemma_pow2_adds(1023, 1074);
        lemma_pow2_pos(1074);
        let (t, u) = (pow2(1023), pow2(1074));
        assert(a < (t * u) * d) by (nonlinear_arith)
            requires
                n < t * d,
                a == n * u,
                u > 0,
        ;
        if e > 2044 {
            if 52 + e > 2097 {
                lemma_pow2_strictly_increases(2097, 52 + e);
            }
            let (x, y) = (pow2(52 + e), pow2(2097));
            assert(x * d >= y * d) by (nonlinear_arith)
                requires
                    x >= y,
                    d > 0,
            ;
        }
    }
    if nearest(n, d) is Finite {
        let u = units_in(nearest(n, d));
        assert(u == m * g) by {
            if m == pow2(53) {
                assert(pow2(52) * pow2(e + 1) == m * g) by (nonlinear_arith)
                    requires
                        pow2(e + 1) == 2 * g,
                        m == pow2(53),
                        pow2(53) == 2 * pow2(52),
                ;
            } else {
                lemma_mantissa_fits(n, d);
            }
        }
        assert(m * (d * g) == u * d) by (nonlinear_arith)
            requires
                u == m * g,
        ;
        assert(near(2 * (u * d) as int, 2 * a as int, (d * g) as int));
        let (p52, p53) = (pow2(52) as int, pow2(53) as int);
        let ud = (u * d) as int;
        assert(p52 * (d * g) <= a + p52 * d) by {
            if e == 0 {
                assert(g == 1);
                assert(d * g == d) by (nonlinear_arith)
                    requires
                        g == 1,
                ;
            } else {
                assert(p52 * (d * g) == pow2(52 + e) * d) by (nonlinear_arith)
                    requires
                        pow2(52 + e) == p52 * g,
                ;
                assert(p52 * d >= 0) by (nonlinear_arith)
                    requires
                        p52 >= 0,
                        d > 0,
                ;
            }
        }
        let dg = (d * g) as int;
        assert(-(p52 * dg) <= p53 * ud - p53 * a <= p52 * dg) by (nonlinear_arith)
            requires
                -dg <= 2 * ud - 2 * a <= dg,
                p53 == 2 * p52,
                p52 > 0,
        ;
    }
}

/// The nearest double is within half of the step between doubles of its size, and
/// at a tie its count of steps is even.
pub proof fn the_nearest_double_is_within_half_a_step(n: nat, d: nat, e: nat)
    requires
        d > 0,
        n * pow2(1074) < pow2(53 + e) * d,
        e > 0 ==> pow2(52 + e) * d <= n * pow2(1074),
        nearest(n, d) is Finite,
    ensures
        ({
            let (u, exact, step) = (
                units_in(nearest(n, d)) * d,
                n * pow2(1074),
                (d * pow2(e)) as int,
            );
            &&& near(2 * u as int, 2 * exact as int, step)
            &&& exists|m: nat|
                units_in(nearest(n, d)) == #[trigger] (m * pow2(e)) && (2 * u == 2 * exact + step
                    || 2 * u + step == 2 * exact ==> m % 2 == 0)
        }),
{
    lemma2_to64();
    lemma2_to64_rest();
    lemma_spacing_is(n, d, e);
    let g = pow2(e);
    let a = n * pow2(1074);
    lemma_pow2_pos(e);
    assert(d * g > 0) by (nonlinear_arith)
        requires
            d > 0,
            g > 0,
    ;
    let m = half_even(a, d * g);
    rounding_is_to_the_nearest(a, d * g);
    lemma_pow2_adds(1, e);
    let u = units_in(nearest(n, d));
    assert(u == m * g) by {
        if m == pow2(53) {
            assert(pow2(52) * pow2(e + 1) == m * g) by (nonlinear_arith)
                requires
                    pow2(e + 1) == 2 * g,
                    m == pow2(53),
                    pow2(53) == 2 * pow2(52),
            ;
        } else {
            lemma_mantissa_fits(n, d);
        }
    }
    assert(m * (d * g) == u * d) by (nonlinear_arith)
        requires
            u == m * g,
    ;
    assert(u == m * pow2(e));
}

/// The rounded mantissa is what the magnitude holds.
proof fn lemma_mantissa_fits(n: nat, d: nat)
    requires
        d > 0,
        nearest(n, d) is Finite,
        half_even(n * pow2(1074), d * pow2(spacing(n, d))) != pow2(53),
    ensures
        ({
            let e = spacing(n, d);
            let m = half_even(n * pow2(1074), d * pow2(e));
            &&& m < pow2(53)
            &&& units_in(nearest(n, d)) == m * pow2(e)
        }),
{
    lemma2_to64();
    lemma2_to64_rest();
    lemma_spacing_exists(n, d);
    let e = spacing(n, d);
    let a = n * pow2(1074);
    let de = d * pow2(e);
    lemma_pow2_pos(e);
    lemma_pow2_adds(53, e);
    assert(de > 0) by (nonlinear_arith)
        requires
            d > 0,
            pow2(e) > 0,
            de == d * pow2(e),
    ;
    assert(pow2(53 + e) * d == pow2(53) * de) by (nonlinear_arith)
        requires
            pow2(53 + e) == pow2(53) * pow2(e),
            de == d * pow2(e),
    ;
    lemma_fundamental_div_mod(a as int, de as int);
    let q = a / de;
    assert(q < pow2(53)) by (nonlinear_arith)
        requires
            a < pow2(53) * de,
            a == de * q + a % de,
            a % de >= 0,
            de > 0,
    ;
    assert(e <= EXPONENT_MAX);
}

/// A product differs from the exact one by no more than one part in 2^53, or half
/// of the smallest double.
pub proof fn products_are_near(x: Magnitude, y: Magnitude)
    requires
        x is Finite,
        y is Finite,
    ensures
        product(x, y) is Finite ==> near(
            pow2(53) * (units_in(product(x, y)) * pow2(1074)) as int,
            pow2(53) * (units_in(x) * units_in(y)) as int,
            units_in(x) * units_in(y) + pow2(52) * pow2(1074) as int,
        ),
        units_in(x) * units_in(y) < pow2(1023) * pow2(2148) ==> product(x, y) is Finite,
        !(product(x, y) is NotANumber),
{
    let (a, b, u) = (units_in(x), units_in(y), pow2(1074));
    lemma_pow2_pos(1074);
    lemma_pow2_adds(1074, 1074);
    lemma_pow2_pos(2148);
    the_nearest_double_is_near(a * b, pow2(2148));
    if product(x, y) is Finite {
        let p = units_in(product(x, y));
        let (p52, p53) = (pow2(52) as int, pow2(53) as int);
        let (ab, uu) = ((a * b) as int, (u * u) as int);
        assert(near(p53 * (p * u), p53 * ab, ab + p52 * u)) by {
            let diff = p53 * (p * u) - p53 * ab;
            let bound = ab + p52 * u;
            assert(diff * u == p53 * (p * uu) - p53 * (ab * u)) by (nonlinear_arith)
                requires
                    diff == p53 * (p * u) - p53 * ab,
                    uu == u * u,
            ;
            assert(bound * u == ab * u + p52 * uu) by (nonlinear_arith)
                requires
                    bound == ab + p52 * u,
                    uu == u * u,
            ;
            assert(-bound <= diff <= bound) by (nonlinear_arith)
                requires
                    -(bound * u) <= diff * u <= bound * u,
                    u > 0,
            ;
        }
    }
}

/// A sum differs from the exact one by no more than one part in 2^53, or half of
/// the smallest double.
pub proof fn sums_are_near(x: Magnitude, y: Magnitude)
    requires
        x is Finite,
        y is Finite,
    ensures
        sum(x, y) is Finite ==> near(
            pow2(53) * units_in(sum(x, y)) as int,
            pow2(53) * (units_in(x) + units_in(y)) as int,
            units_in(x) + units_in(y) + pow2(52) as int,
        ),
        units_in(x) + units_in(y) < pow2(1023) * pow2(1074) ==> sum(x, y) is Finite,
        !(sum(x, y) is NotANumber),
{
    let (a, u) = (units_in(x) + units_in(y), pow2(1074));
    lemma_pow2_pos(1074);
    the_nearest_double_is_near(a, u);
    if sum(x, y) is Finite {
        let s = units_in(sum(x, y));
        let (p52, p53) = (pow2(52) as int, pow2(53) as int);
        let diff = p53 * s - p53 * a;
        let bound = a + p52;
        assert(diff * u == p53 * (s * u) - p53 * (a * u)) by (nonlinear_arith)
            requires
                diff == p53 * s - p53 * a,
        ;
        assert(bound * u == a * u + p52 * u) by (nonlinear_arith)
            requires
                bound == a + p52,
        ;
        assert(-bound <= diff <= bound) by (nonlinear_arith)
            requires
                -(bound * u) <= diff * u <= bound * u,
                u > 0,
        ;
    }
}

// ---- comparison and whole parts -----------------------------------------------------------------

/// A number exceeds an integer, or is under it, by its sign and size alone; it
/// never does both, and one that is not a number does neither.
pub proof fn comparisons_go_by_sign_and_size(v: Double, c: nat)
    requires
        c > 0,
    ensures
        exceeds(v, c) ==> !v.negative && (v.magnitude is Infinite || v.units() > c * pow2(1074)),
        !v.negative && v.finite() && v.units() > c * pow2(1074) ==> exceeds(v, c),
        !v.negative && v.magnitude is Infinite ==> exceeds(v, c) && !under(v, c),
        under(v, c) ==> v.negative || (v.finite() && v.units() < c * pow2(1074)),
        v.finite() && (v.negative || v.units() < c * pow2(1074)) ==> under(v, c),
        !(exceeds(v, c) && under(v, c)),
        v.magnitude is NotANumber ==> !exceeds(v, c) && !under(v, c),
{
}

/// A number is cut toward zero, and to the nearer end of the range where it is
/// outside.
pub proof fn numbers_are_cut_toward_zero(v: Double, max: nat)
    requires
        v.finite(),
    ensures
        ({
            let (n, one) = (to_signed(v, max), pow2(1074));
            &&& -(max as int) - 1 <= n <= max
            &&& v.negative ==> n <= 0
            &&& !v.negative ==> n >= 0
            &&& -(max as int) - 1 < n < max ==> (if v.negative {
                -n
            } else {
                n
            }) * one <= v.units() < ((if v.negative {
                -n
            } else {
                n
            }) + 1) * one
            &&& n == max ==> !v.negative && max * one <= v.units() || max == 0
            &&& n == -(max as int) - 1 ==> v.negative && (max + 1) * one <= v.units()
        }),
        ({
            let (n, one) = (to_unsigned(v, max), pow2(1074));
            &&& n <= max
            &&& v.negative ==> n == 0
            &&& !v.negative && n < max ==> n * one <= v.units() < (n + 1) * one
            &&& !v.negative && n == max ==> max * one <= v.units()
        }),
{
    lemma_pow2_pos(1074);
    let one = pow2(1074) as int;
    let u = v.units() as int;
    lemma_fundamental_div_mod(u, one);
    let q = u / one;
    assert(q * one <= u < (q + 1) * one) by (nonlinear_arith)
        requires
            u == one * q + u % one,
            0 <= u % one < one,
    ;
    assert(q >= max ==> max * one <= u) by (nonlinear_arith)
        requires
            q * one <= u,
            one > 0,
    ;
    assert(q > max ==> (max + 1) * one <= u) by (nonlinear_arith)
        requires
            q * one <= u,
            one > 0,
    ;
    assert(q >= 0) by (nonlinear_arith)
        requires
            u >= 0,
            u < (q + 1) * one,
            one > 0,
    ;
}

/// An infinite number goes to the end of the range on its side, and what is no
/// number to zero.
pub proof fn infinite_numbers_go_to_the_ends(v: Double, max: nat)
    ensures
        v.magnitude is Infinite && v.negative ==> to_signed(v, max) + max == -1 && to_unsigned(
            v,
            max,
        ) == 0,
        v.magnitude is Infinite && !v.negative ==> to_signed(v, max) == max && to_unsigned(v, max)
            == max,
        v.magnitude is NotANumber ==> to_signed(v, max) == 0 && to_unsigned(v, max) == 0,
{
}

/// A bit pattern is a sign bit, eleven bits of exponent and 52 of fraction: a
/// finite number is its fraction, with a leading one where the exponent is not
/// zero, doubled once for each exponent above one. The last exponent is left to
/// infinity and, with a fraction, to what is no number.
pub proof fn bits_are_a_sign_an_exponent_and_a_fraction(v: Double)
    requires
        v.wf(),
    ensures
        ({
            let body = bits(v) % 0x8000_0000_0000_0000;
            let (x, f) = (body / 0x10_0000_0000_0000, body % 0x10_0000_0000_0000);
            &&& v.negative == (bits(v) / 0x8000_0000_0000_0000 == 1)
            &&& bits(v) < 0x1_0000_0000_0000_0000
            &&& v.finite() ==> x < 2047 && v.units() == (if x == 0 {
                f
            } else {
                (0x10_0000_0000_0000 + f) * pow2((x - 1) as nat)
            })
            &&& v.magnitude is Infinite ==> x == 2047 && f == 0
            &&& v.magnitude is NotANumber ==> x == 2047 && f == 0x8_0000_0000_0000
        }),
{
    lemma2_to64();
    if let Magnitude::Finite { mantissa, exponent } = v.magnitude {
        let (m, e) = (mantissa as int, exponent as int);
        let n = 0x10_0000_0000_0000int;
        let body = m + e * n;
        assert(bits(v) % 0x8000_0000_0000_0000 == body);
        if m >= n {
            assert(body / n == e + 1 && body % n == m - n);
        } else {
            assert(body / n == 0 && body % n == m);
            let one = pow2(exponent as nat);
            assert(one == 1);
            assert(m * one == m) by (nonlinear_arith)
                requires
                    one == 1,
            ;
        }
    }
}

/// An infinite size stays infinite when a size is added, or when it is multiplied
/// by one that is not zero; times zero it is no number, and what is no number
/// stays so.
pub proof fn infinite_sizes_stay_infinite(x: Magnitude, y: Magnitude)
    requires
        x.wf(),
        y.wf(),
    ensures
        x is Infinite && !(y is NotANumber) ==> sum(x, y) is Infinite && sum(y, x) is Infinite,
        x is Infinite && y is Infinite ==> product(x, y) is Infinite,
        x is Infinite && y is Finite && units_in(y) > 0 ==> product(x, y) is Infinite && product(y, x)
            is Infinite,
        x is Infinite && y is Finite && units_in(y) == 0 ==> product(x, y) is NotANumber && product(
            y,
            x,
        ) is NotANumber,
        x is NotANumber ==> sum(x, y) is NotANumber && sum(y, x) is NotANumber && product(x, y)
            is NotANumber && product(y, x) is NotANumber,
{
    if let Magnitude::Finite { mantissa, exponent } = y {
        lemma_pow2_pos(exponent as nat);
        let (m, g) = (mantissa as int, pow2(exponent as nat) as int);
        assert((m * g == 0) == (m == 0)) by (nonlinear_arith)
            requires
                m >= 0,
                g > 0,
        ;
    }
}

} // verus!
