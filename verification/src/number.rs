//! Reading decimal numbers as doubles.
use vstd::prelude::*;
use vstd::arithmetic::power::{lemma_pow0, lemma_pow_adds, lemma_pow_increases, lemma_pow_positive, pow};
use vstd::arithmetic::power2::{lemma2_to64, lemma2_to64_rest, lemma_pow2_adds, lemma_pow2_strictly_increases, lemma_pow2_unfold, pow2};
use vstd::slice::slice_subrange;
use crate::digits::{all_digits, digit_number, lemma_numeral_grows, lemma_numeral_push, numeral};
use crate::double::{Double, EXPONENT_MAX, Magnitude, is_spacing, lemma_beyond, lemma_spacing_exists, lemma_spacing_is, nearest, round, spacing};
use crate::natural::Natural;
use crate::text::{digit, is_digit, is_text, lower_all, lowered_all, position, position_of};

verus! {

/// The digits before and after the point of an unsigned decimal numeral.
pub open spec fn decimal_parts(s: Seq<char>) -> (Seq<char>, Seq<char>) {
    let p = position(s, '.') as int;
    (s.take(p), if p < s.len() {
        s.skip(p + 1)
    } else {
        seq![]
    })
}

/// The number that an optional sign and one or more digits stand for.
pub open spec fn parse_exponent(s: Seq<char>) -> Option<int> {
    let negative = s.len() > 0 && s[0] == '-';
    let d = if s.len() > 0 && (s[0] == '-' || s[0] == '+') {
        s.drop_first()
    } else {
        s
    };
    if d.len() > 0 && all_digits(d) {
        Some(if negative {
            -(numeral(d) as int)
        } else {
            numeral(d) as int
        })
    } else {
        None
    }
}

/// An unsigned decimal number as digits times a power of ten: digits with an
/// optional point among or beside them, then an optional exponent after `e`.
pub open spec fn parse_scientific(s: Seq<char>) -> Option<(nat, int)> {
    let p = position(s, 'e') as int;
    let (whole, fraction) = decimal_parts(s.take(p));
    let exponent = if p < s.len() {
        parse_exponent(s.skip(p + 1))
    } else {
        Some(0)
    };
    if all_digits(whole) && all_digits(fraction) && whole.len() + fraction.len() > 0
        && exponent is Some {
        Some((numeral(whole + fraction), exponent->0 - fraction.len()))
    } else {
        None
    }
}

/// `digits * 10^exponent` as a ratio.
pub open spec fn ratio(digits: nat, exponent: int) -> (nat, nat) {
    if exponent >= 0 {
        (digits * pow(10, exponent as nat) as nat, 1)
    } else {
        (digits, pow(10, (-exponent) as nat) as nat)
    }
}

/// The double nearest to `digits * 10^exponent`.
pub open spec fn nearest_decimal(digits: nat, exponent: int) -> Magnitude {
    nearest(ratio(digits, exponent).0, ratio(digits, exponent).1)
}

/// The double that a text stands for, whatever the case of its letters: an
/// optional sign, then `inf`, `infinity`, `nan` or a decimal number.
pub open spec fn parse_double(text: Seq<char>) -> Option<Double> {
    let s = lower_all(text);
    let negative = s.len() > 0 && s[0] == '-';
    let body = if s.len() > 0 && (s[0] == '-' || s[0] == '+') {
        s.drop_first()
    } else {
        s
    };
    if body == "inf"@ || body == "infinity"@ {
        Some(Double { negative, magnitude: Magnitude::Infinite })
    } else if body == "nan"@ {
        Some(Double { negative, magnitude: Magnitude::NotANumber })
    } else {
        match parse_scientific(body) {
            Some((digits, exponent)) => Some(
                Double { negative, magnitude: nearest_decimal(digits, exponent) },
            ),
            None => None,
        }
    }
}

// ---- sizes --------------------------------------------------------------------------

proof fn lemma_ten_exceeds_eight(k: nat)
    ensures
        pow(10, k) >= pow2(3 * k),
    decreases k,
{
    lemma2_to64();
    lemma_pow0(10);
    if k > 0 {
        lemma_ten_exceeds_eight((k - 1) as nat);
        reveal(pow);
        lemma_pow2_adds(3, (3 * k - 3) as nat);
        let (t, p) = (pow(10, (k - 1) as nat), pow2((3 * k - 3) as nat));
        assert(10 * t >= 8 * p) by (nonlinear_arith)
            requires
                t >= p,
                p >= 0,
        ;
    }
}

/// A numeral of `n` digits that does not begin with a zero lies between two powers of ten.
proof fn lemma_numeral_size(s: Seq<char>)
    requires
        s.len() > 0,
        all_digits(s),
        s[0] != '0',
    ensures
        pow(10, (s.len() - 1) as nat) <= numeral(s) < pow(10, s.len()),
    decreases s.len(),
{
    reveal(pow);
    lemma_pow0(10);
    let t = s.drop_last();
    if t.len() == 0 {
        assert(pow(10, 1) == 10 * pow(10, 0));
        assert(numeral(t) == 0);
    } else {
        lemma_numeral_size(t);
        assert(pow(10, s.len()) == 10 * pow(10, t.len()));
        assert(pow(10, t.len()) == 10 * pow(10, (t.len() - 1) as nat));
    }
}

proof fn lemma_leading_zeros(s: Seq<char>, z: int)
    requires
        0 <= z <= s.len(),
        forall|i: int| 0 <= i < z ==> s[i] == '0',
    ensures
        numeral(s) == numeral(s.skip(z)),
    decreases s.len(),
{
    if z == s.len() {
        if s.len() > 0 {
            lemma_leading_zeros(s.drop_last(), z - 1);
            assert(s.skip(z) =~= s.drop_last().skip(z - 1));
        } else {
            assert(s.skip(z) =~= s);
        }
    } else {
        lemma_leading_zeros(s.drop_last(), z);
        assert(s.skip(z).drop_last() =~= s.drop_last().skip(z));
    }
}

proof fn lemma_large(n: nat, d: nat)
    requires
        d > 0,
        n >= pow(10, 400) * d,
    ensures
        nearest(n, d) == Magnitude::Infinite,
{
    lemma_ten_exceeds_eight(400);
    lemma_spacing_exists(n, d);
    lemma_pow2_adds(1200, 1074);
    lemma_pow2_strictly_increases(53 + EXPONENT_MAX as nat, 2274);
    let (a, b, c, t) = (
        pow2(1200) as int,
        pow2(1074) as int,
        pow2(53 + EXPONENT_MAX as nat) as int,
        pow(10, 400),
    );
    assert(n * b >= c * d) by (nonlinear_arith)
        requires
            n >= t * d,
            t >= a,
            a * b >= c,
            b >= 0,
            d > 0,
            a >= 0,
    {
        assert(t * d >= a * d) by (nonlinear_arith)
            requires
                t >= a,
                d > 0,
        ;
        assert(n * b >= (a * d) * b) by (nonlinear_arith)
            requires
                n >= a * d,
                b >= 0,
        ;
        assert((a * d) * b == (a * b) * d) by (nonlinear_arith);
        assert((a * b) * d >= c * d) by (nonlinear_arith)
            requires
                a * b >= c,
                d > 0,
        ;
    }
    lemma_beyond(n, d, spacing(n, d));
}

proof fn lemma_small(n: nat, d: nat)
    requires
        d > 0,
        n * pow(10, 400) <= d,
    ensures
        nearest(n, d) == (Magnitude::Finite { mantissa: 0, exponent: 0 }),
{
    lemma2_to64();
    lemma2_to64_rest();
    lemma_ten_exceeds_eight(400);
    lemma_pow2_strictly_increases(1076, 1200);
    lemma_pow2_unfold(1076);
    lemma_pow2_unfold(1075);
    let (t, b) = (pow(10, 400), pow2(1074) as int);
    let a = n * pow2(1074);
    assert(4 * a <= d) by (nonlinear_arith)
        requires
            n * t <= d,
            t >= 4 * b,
            a == n * b,
            n >= 0,
    {
        assert(n * t >= n * (4 * b)) by (nonlinear_arith)
            requires
                t >= 4 * b,
                n >= 0,
        ;
        assert(n * (4 * b) == 4 * (n * b)) by (nonlinear_arith);
    }
    assert(pow2(53) * d >= d) by (nonlinear_arith)
        requires
            pow2(53) >= 1,
            d > 0,
    ;
    assert(is_spacing(n, d, 0));
    lemma_spacing_is(n, d, 0);
    assert(d * pow2(0) == d) by (nonlinear_arith)
        requires
            pow2(0) == 1,
    ;
    assert(a / d == 0 && a % d == a) by (nonlinear_arith)
        requires
            0 <= a < d,
    ;
}

/// A number too large for a double, by its count of digits.
proof fn lemma_many_digits(x: nat, nd: nat, e: int)
    requires
        nd > 0,
        pow(10, (nd - 1) as nat) <= x,
        nd + e > 400,
    ensures
        nearest_decimal(x, e) == Magnitude::Infinite,
{
    let (n, d) = ratio(x, e);
    if e >= 0 {
        lemma_pow_positive(10, e as nat);
        lemma_pow_adds(10, (nd - 1) as nat, e as nat);
        lemma_pow_increases(10, 400, (nd - 1 + e) as nat);
        let (p, q) = (pow(10, (nd - 1) as nat), pow(10, e as nat));
        assert(x * q >= p * q) by (nonlinear_arith)
            requires
                x >= p,
                q > 0,
        ;
    } else {
        lemma_pow_positive(10, (-e) as nat);
        lemma_pow_adds(10, 400, (-e) as nat);
        lemma_pow_increases(10, (400 - e) as nat, (nd - 1) as nat);
    }
    lemma_large(n, d);
}

/// A number too small for a double, by its count of digits.
proof fn lemma_few_digits(x: nat, nd: nat, e: int)
    requires
        x < pow(10, nd),
        nd + e < -400,
    ensures
        nearest_decimal(x, e) == (Magnitude::Finite { mantissa: 0, exponent: 0 }),
{
    let d = pow(10, (-e) as nat);
    lemma_pow_positive(10, (-e) as nat);
    lemma_pow_positive(10, 400);
    lemma_pow_adds(10, nd, 400);
    lemma_pow_increases(10, nd + 400, (-e) as nat);
    let (p, q) = (pow(10, nd), pow(10, 400));
    assert(x * q <= p * q) by (nonlinear_arith)
        requires
            x <= p,
            q > 0,
    ;
    lemma_small(x, d as nat);
}

proof fn lemma_zero(e: int)
    ensures
        nearest_decimal(0, e) == (Magnitude::Finite { mantissa: 0, exponent: 0 }),
{
    let (n, d) = ratio(0, e);
    if e >= 0 {
        assert(0 * pow(10, e as nat) == 0) by (nonlinear_arith);
    } else {
        lemma_pow_positive(10, (-e) as nat);
    }
    assert(0 * pow(10, 400) == 0) by (nonlinear_arith);
    lemma_small(n, d);
}

// ---- reading -------------------------------------------------------------------------

const EXPONENT_CAP: u128 = 1_000_000_000_000_000_000_000_000_000_000;

/// Whether every character is a digit.
fn digits_only(s: &[char]) -> (r: bool)
    ensures
        r == all_digits(s@),
{
    let mut i: usize = 0;
    while i < s.len()
        invariant
            i <= s.len(),
            forall|j: int| 0 <= j < i ==> is_digit(#[trigger] s@[j]),
        decreases s.len() - i,
    {
        if !digit(s[i]) {
            return false;
        }
        i += 1;
    }
    true
}

/// The number that digits stand for, or some number past the cap where it is past the cap.
fn capped_numeral(s: &[char]) -> (r: u128)
    requires
        all_digits(s@),
    ensures
        r == numeral(s@) || (r >= EXPONENT_CAP && numeral(s@) >= EXPONENT_CAP),
        r <= 10 * EXPONENT_CAP,
{
    let mut v: u128 = 0;
    let mut i: usize = 0;
    assert(s@.take(0) =~= Seq::<char>::empty());
    while i < s.len()
        invariant
            i <= s.len(),
            all_digits(s@),
            v < EXPONENT_CAP,
            v == numeral(s@.take(i as int)),
        decreases s.len() - i,
    {
        let c = s[i];
        proof {
            assert(is_digit(s@[i as int]));
            assert(s@.take(i + 1) =~= s@.take(i as int).push(c));
            lemma_numeral_push(s@.take(i as int), c);
            lemma_numeral_grows(s@, i + 1);
        }
        v = v * 10 + digit_number(c) as u128;
        i += 1;
        if v >= EXPONENT_CAP {
            return v;
        }
    }
    assert(s@.take(s@.len() as int) =~= s@);
    v
}

/// The natural number that digits stand for.
fn natural_of(s: &[char]) -> (r: Natural)
    requires
        all_digits(s@),
    ensures
        r@ == numeral(s@),
{
    let mut v = Natural::new(0);
    let mut i: usize = 0;
    assert(s@.take(0) =~= Seq::<char>::empty());
    while i < s.len()
        invariant
            i <= s.len(),
            all_digits(s@),
            v@ == numeral(s@.take(i as int)),
        decreases s.len() - i,
    {
        let c = s[i];
        proof {
            assert(is_digit(s@[i as int]));
            assert(s@.take(i + 1) =~= s@.take(i as int).push(c));
            lemma_numeral_push(s@.take(i as int), c);
        }
        v.mul_add(10, digit_number(c));
        i += 1;
    }
    assert(s@.take(s@.len() as int) =~= s@);
    v
}

/// The double nearest to `digits * 10^(exponent - places)`, where `exponent` may be
/// any number past the cap if the true one is past it on the same side.
fn rounded(
    digits: &[char],
    places: usize,
    exponent: i128,
    Ghost(exact): Ghost<int>,
) -> (r: Magnitude)
    requires
        all_digits(digits@),
        -10 * EXPONENT_CAP <= exponent <= 10 * EXPONENT_CAP,
        ({
            ||| exponent == exact
            ||| exponent >= EXPONENT_CAP && exact >= EXPONENT_CAP
            ||| exponent <= -EXPONENT_CAP && exact <= -EXPONENT_CAP
        }),
    ensures
        r == nearest_decimal(numeral(digits@), exact - places),
        r.wf(),
{
    let mut z: usize = 0;
    while z < digits.len() && digits[z] == '0'
        invariant
            z <= digits.len(),
            forall|i: int| 0 <= i < z ==> digits@[i] == '0',
        decreases digits.len() - z,
    {
        z += 1;
    }
    let solid = slice_subrange(digits, z, digits.len());
    let ghost x = numeral(solid@);
    let ghost e = exact - places;
    proof {
        lemma_leading_zeros(digits@, z as int);
        assert(solid@ =~= digits@.skip(z as int));
        assert(all_digits(solid@)) by {
            assert forall|i: int| 0 <= i < solid@.len() implies is_digit(#[trigger] solid@[i]) by {
                assert(solid@[i] == digits@[z + i]);
            }
        }
    }
    if solid.len() == 0 {
        proof {
            lemma_zero(e);
        }
        return Magnitude::Finite { mantissa: 0, exponent: 0 };
    }
    proof {
        assert(solid@[0] == digits@[z as int]);
        lemma_numeral_size(solid@);
    }
    let power: i128 = exponent - places as i128;
    let top: i128 = solid.len() as i128 + power;
    if top > 400 {
        proof {
            lemma_many_digits(x, solid@.len(), e);
        }
        return Magnitude::Infinite;
    }
    if top < -400 {
        proof {
            lemma_few_digits(x, solid@.len(), e);
        }
        return Magnitude::Finite { mantissa: 0, exponent: 0 };
    }
    let mut n = natural_of(solid);
    let mut d = Natural::new(1);
    if power >= 0 {
        n.scale(power as u128);
        proof {
            lemma_pow_positive(10, power as nat);
        }
    } else {
        d.scale((-power) as u128);
        proof {
            lemma_pow_positive(10, (-power) as nat);
            assert(1 * pow(10, (-power) as nat) == pow(10, (-power) as nat));
        }
    }
    round(n, d)
}

/// Reads an unsigned decimal number.
fn scientific_of(s: &[char]) -> (r: Option<Magnitude>)
    ensures
        match parse_scientific(s@) {
            Some((digits, power)) => r == Some(nearest_decimal(digits, power)),
            None => r is None,
        },
        r matches Some(m) ==> m.wf(),
{
    let p = position_of(s, 'e');
    let body = slice_subrange(s, 0, p);
    let q = position_of(body, '.');
    let whole = slice_subrange(body, 0, q);
    let fraction = if q < body.len() {
        slice_subrange(body, q + 1, body.len())
    } else {
        slice_subrange(body, q, q)
    };
    assert(body@ =~= s@.take(p as int));
    assert(whole@ =~= decimal_parts(body@).0);
    assert(fraction@ =~= decimal_parts(body@).1);
    if !digits_only(whole) || !digits_only(fraction) {
        return None;
    }
    if whole.len() == 0 && fraction.len() == 0 {
        return None;
    }
    let mut exponent: i128 = 0;
    let ghost mut exact: int = 0;
    if p < s.len() {
        let tail = slice_subrange(s, p + 1, s.len());
        assert(tail@ =~= s@.skip(p + 1));
        let negative = tail.len() > 0 && tail[0] == '-';
        let start: usize = if tail.len() > 0 && (tail[0] == '-' || tail[0] == '+') { 1 } else { 0 };
        let d = slice_subrange(tail, start, tail.len());
        assert(start == 1 ==> d@ =~= tail@.drop_first());
        assert(start == 0 ==> d@ =~= tail@);
        if d.len() == 0 || !digits_only(d) {
            return None;
        }
        let v = capped_numeral(d);
        exponent = if negative { -(v as i128) } else { v as i128 };
        proof {
            exact = parse_exponent(tail@)->0;
        }
    }
    let mut all: Vec<char> = Vec::new();
    let ghost joined = whole@ + fraction@;
    let mut i: usize = 0;
    while i < whole.len()
        invariant
            i <= whole.len(),
            all@ == whole@.take(i as int),
        decreases whole.len() - i,
    {
        all.push(whole[i]);
        i += 1;
        assert(whole@.take(i as int) =~= whole@.take(i - 1).push(whole@[i - 1]));
    }
    let mut j: usize = 0;
    while j < fraction.len()
        invariant
            j <= fraction.len(),
            all@ == whole@ + fraction@.take(j as int),
        decreases fraction.len() - j,
    {
        all.push(fraction[j]);
        j += 1;
        assert(whole@ + fraction@.take(j as int) =~= (whole@ + fraction@.take(j - 1)).push(
            fraction@[j - 1],
        ));
    }
    assert(all@ =~= joined);
    Some(rounded(all.as_slice(), fraction.len(), exponent, Ghost(exact)))
}

/// Reads a number; nothing where the text is not one.
pub fn double_of(text: &[char]) -> (r: Option<Double>)
    ensures
        r == parse_double(text@),
        r matches Some(d) ==> d.wf(),
{
    let s = lowered_all(text);
    let negative = s.len() > 0 && s[0] == '-';
    let start: usize = if s.len() > 0 && (s[0] == '-' || s[0] == '+') { 1 } else { 0 };
    let body = slice_subrange(s.as_slice(), start, s.len());
    assert(start == 1 ==> body@ =~= s@.drop_first());
    assert(start == 0 ==> body@ =~= s@);
    if is_text(body, "inf") || is_text(body, "infinity") {
        return Some(Double { negative, magnitude: Magnitude::Infinite });
    }
    if is_text(body, "nan") {
        return Some(Double { negative, magnitude: Magnitude::NotANumber });
    }
    match scientific_of(body) {
        Some(magnitude) => Some(Double { negative, magnitude }),
        None => None,
    }
}

} // verus!
