//! What is done with doubles: printing, whole parts, comparison with small
//! integers, sums and products, and their bit patterns.
use vstd::prelude::*;
use vstd::arithmetic::power::{lemma_pow0, pow};
use vstd::arithmetic::power2::{lemma2_to64, lemma2_to64_rest, lemma_pow2_adds, lemma_pow2_pos, lemma_pow2_strictly_increases, pow2};
use vstd::arithmetic::div_mod::{lemma_fundamental_div_mod, lemma_fundamental_div_mod_converse};
use vstd::bits::{lemma_u64_shl_is_mul, lemma_u64_shr_is_div};
use crate::digits::{decimal, digit_of, padded, push_decimal, push_padded};
use crate::double::{Double, MANTISSA_LIMIT, MANTISSA_NORMAL, Magnitude, half_even, nearest, round};
use crate::natural::Natural;

verus! {

// ---- printing ---------------------------------------------------------------------------

/// A finite number with a fixed count of decimal places: its exact value
/// rounded to the nearest such decimal, ties to the even last digit.
pub open spec fn fixed(v: Double, places: nat) -> Seq<char> {
    let scale = pow(10, places) as nat;
    let n = half_even(v.units() * scale, pow2(1074));
    (if v.negative {
        seq!['-']
    } else {
        seq![]
    }) + decimal(n / scale) + seq!['.'] + padded(n % scale, places)
}

proof fn lemma_small_powers()
    ensures
        pow(10, 0) == 1,
        pow(10, 1) == 10,
        pow(10, 2) == 100,
        pow(10, 3) == 1000,
{
    lemma_pow0(10);
    reveal(pow);
    assert(pow(10, 1) == 10 * pow(10, 0));
    assert(pow(10, 2) == 10 * pow(10, 1));
    assert(pow(10, 3) == 10 * pow(10, 2));
}

/// A common factor does not change a rounded quotient.
proof fn lemma_half_even_scale(n: nat, d: nat, c: nat)
    requires
        d > 0,
        c > 0,
    ensures
        half_even(n * c, d * c) == half_even(n, d),
{
    let q = n / d;
    let r = n % d;
    lemma_fundamental_div_mod(n as int, d as int);
    assert(n * c == q * (d * c) + r * c) by (nonlinear_arith)
        requires
            n == d * q + r,
    ;
    assert(0 <= r * c < d * c) by (nonlinear_arith)
        requires
            0 <= r < d,
            c > 0,
    ;
    lemma_fundamental_div_mod_converse((n * c) as int, (d * c) as int, q as int, (r * c) as int);
    assert((2 * (r * c) < d * c) == (2 * r < d)) by (nonlinear_arith)
        requires
            c > 0,
    ;
    assert((2 * (r * c) == d * c) == (2 * r == d)) by (nonlinear_arith)
        requires
            c > 0,
    ;
}

proof fn lemma_half_even_exact(n: nat, d: nat)
    requires
        d > 0,
    ensures
        half_even(n * d, d) == n,
{
    lemma_fundamental_div_mod_converse((n * d) as int, d as int, n as int, 0);
}

/// Appends the decimal digits of a natural number.
pub fn push_natural(out: &mut String, n: Natural)
    ensures
        final(out)@ == old(out)@ + decimal(n@),
    decreases n@,
{
    let mut rest = n;
    let d = rest.divide(10);
    if !rest.is_zero() {
        push_natural(out, rest);
    }
    out.push(digit_of(d));
    assert(out@ =~= old(out)@ + decimal(n@));
}

/// Appends a finite number with `places` decimal places.
pub fn push_fixed(out: &mut String, v: Double, places: u32)
    requires
        v.wf(),
        v.finite(),
        1 <= places <= 3,
    ensures
        final(out)@ == old(out)@ + fixed(v, places as nat),
{
    let scale: u64 = if places == 1 { 10 } else if places == 2 { 100 } else { 1000 };
    proof {
        lemma_small_powers();
        lemma2_to64();
        lemma2_to64_rest();
        lemma_pow2_pos(1074);
    }
    assert(scale == pow(10, places as nat));
    if v.negative {
        out.push('-');
    }
    let ghost sign: Seq<char> = if v.negative {
        seq!['-']
    } else {
        seq![]
    };
    assert(out@ =~= old(out)@ + sign);
    if let Magnitude::Finite { mantissa, exponent } = v.magnitude {
        let ghost m = mantissa as nat;
        let ghost e = exponent as nat;
        let ghost sc = scale as nat;
        let ghost total = half_even(v.units() * sc, pow2(1074));
        proof {
            lemma_pow2_pos(e);
        }
        if exponent >= 1074 {
            let mut n = Natural::new(mantissa);
            n.shift(exponent - 1074);
            let ghost i = n@;
            proof {
                lemma_pow2_adds((e - 1074) as nat, 1074);
                assert(v.units() * sc == (i * sc) * pow2(1074)) by (nonlinear_arith)
                    requires
                        v.units() == m * pow2(e),
                        pow2(e) == pow2((e - 1074) as nat) * pow2(1074),
                        i == m * pow2((e - 1074) as nat),
                ;
                lemma_half_even_exact(i * sc, pow2(1074));
                assert(i * sc == sc * i + 0) by (nonlinear_arith);
                lemma_fundamental_div_mod_converse((i * sc) as int, sc as int, i as int, 0);
            }
            push_natural(out, n);
            out.push('.');
            push_padded(out, 0, places);
            assert(out@ =~= old(out)@ + fixed(v, places as nat));
        } else {
            let s: u32 = 1074 - exponent;
            assert(mantissa * scale <= 0x20_0000_0000_0000 * 1000) by (nonlinear_arith)
                requires
                    mantissa <= 0x20_0000_0000_0000,
                    scale <= 1000,
            ;
            let n: u64 = mantissa * scale;
            let ghost nn = n as nat;
            proof {
                lemma_pow2_adds(s as nat, e);
                lemma_pow2_pos(s as nat);
                assert(v.units() * sc == nn * pow2(e)) by (nonlinear_arith)
                    requires
                        v.units() == m * pow2(e),
                        nn == m * sc,
                ;
                lemma_half_even_scale(nn, pow2(s as nat), pow2(e));
                assert(total == half_even(nn, pow2(s as nat)));
            }
            let mut k: u64 = 0;
            if s >= 64 {
                proof {
                    if s > 64 {
                        lemma_pow2_strictly_increases(64, s as nat);
                    }
                    let p = pow2(s as nat);
                    assert(nn / p == 0 && nn % p == nn) by (nonlinear_arith)
                        requires
                            0 <= nn < p,
                    ;
                }
            } else {
                let q: u64 = n >> s;
                proof {
                    lemma_u64_shr_is_div(n, s as u64);
                    lemma_fundamental_div_mod(nn as int, pow2(s as nat) as int);
                    if s < 63 {
                        lemma_pow2_strictly_increases(s as nat, 63);
                    }
                    let (qq, p) = (q as int, pow2(s as nat) as int);
                    assert(qq * p == p * qq) by (nonlinear_arith);
                    assert(0 <= qq * p <= nn);
                    lemma_u64_shl_is_mul(q, s as u64);
                }
                let back: u64 = q << s;
                let r: u64 = n - back;
                let half: u64 = 1u64 << (s - 1);
                proof {
                    lemma_u64_shl_is_mul(1, (s - 1) as u64);
                    lemma_pow2_adds(1, (s - 1) as nat);
                    assert(r == nn % pow2(s as nat));
                    assert(half * 2 == pow2(s as nat));
                }
                k = if r < half || (r == half && q % 2 == 0) { q } else { q + 1 };
            }
            assert(k == total);
            push_decimal(out, k / scale);
            out.push('.');
            push_padded(out, k % scale, places);
            assert(out@ =~= old(out)@ + fixed(v, places as nat));
        }
    }
}

// ---- whole parts ---------------------------------------------------------------------------

/// The whole part of a finite number's size.
pub open spec fn whole(v: Double) -> nat {
    v.units() / pow2(1074)
}

/// The number cut to an integer in `0..=max`; numbers out of that range go to
/// its nearer end.
pub open spec fn to_unsigned(v: Double, max: nat) -> nat {
    match v.magnitude {
        Magnitude::NotANumber => 0,
        Magnitude::Infinite => if v.negative {
            0
        } else {
            max
        },
        Magnitude::Finite { .. } => if v.negative {
            0
        } else if whole(v) > max {
            max
        } else {
            whole(v)
        },
    }
}

/// The number cut to an integer in `-max - 1..=max`; numbers out of that range
/// go to its nearer end.
pub open spec fn to_signed(v: Double, max: nat) -> int {
    match v.magnitude {
        Magnitude::NotANumber => 0,
        Magnitude::Infinite => if v.negative {
            -(max as int) - 1
        } else {
            max as int
        },
        Magnitude::Finite { .. } => if v.negative {
            if whole(v) > max {
                -(max as int) - 1
            } else {
                -(whole(v) as int)
            }
        } else if whole(v) > max {
            max as int
        } else {
            whole(v) as int
        },
    }
}

/// The whole part of a finite number's size, or the largest integer where it is larger.
fn whole_of(v: Double) -> (r: u64)
    requires
        v.wf(),
        v.finite(),
    ensures
        whole(v) <= u64::MAX ==> r == whole(v),
        whole(v) > u64::MAX ==> r == u64::MAX,
{
    proof {
        lemma2_to64();
        lemma2_to64_rest();
        lemma_pow2_pos(1074);
    }
    match v.magnitude {
        Magnitude::Finite { mantissa, exponent } => {
            let ghost m = mantissa as nat;
            let ghost e = exponent as nat;
            if exponent >= 1074 {
                let sh: u32 = exponent - 1074;
                let ghost i = m * pow2(sh as nat);
                proof {
                    lemma_pow2_adds(sh as nat, 1074);
                    assert(v.units() == i * pow2(1074)) by (nonlinear_arith)
                        requires
                            v.units() == m * pow2(e),
                            pow2(e) == pow2(sh as nat) * pow2(1074),
                            i == m * pow2(sh as nat),
                    ;
                    assert(i * pow2(1074) == pow2(1074) * i + 0) by (nonlinear_arith);
                    lemma_fundamental_div_mod_converse(
                        v.units() as int,
                        pow2(1074) as int,
                        i as int,
                        0,
                    );
                    assert(whole(v) == i);
                }
                if sh >= 12 {
                    proof {
                        if sh > 12 {
                            lemma_pow2_strictly_increases(12, sh as nat);
                        }
                        assert(m * pow2(sh as nat) >= 0x10_0000_0000_0000 * 4096)
                            by (nonlinear_arith)
                            requires
                                m >= 0x10_0000_0000_0000,
                                pow2(sh as nat) >= 4096,
                        ;
                    }
                    u64::MAX
                } else {
                    proof {
                        if sh < 11 {
                            lemma_pow2_strictly_increases(sh as nat, 11);
                        }
                        assert(m * pow2(sh as nat) <= 0x1f_ffff_ffff_ffff * 2048)
                            by (nonlinear_arith)
                            requires
                                m <= 0x1f_ffff_ffff_ffff,
                                pow2(sh as nat) <= 2048,
                        ;
                        lemma_u64_shl_is_mul(mantissa, sh as u64);
                    }
                    mantissa << sh
                }
            } else {
                let s: u32 = 1074 - exponent;
                proof {
                    lemma_pow2_adds(s as nat, e);
                    lemma_pow2_pos(e);
                    lemma_pow2_pos(s as nat);
                    let p = pow2(s as nat);
                    let q = m / p;
                    let r = m % p;
                    lemma_fundamental_div_mod(m as int, p as int);
                    assert(m * pow2(e) == (p * pow2(e)) * q + r * pow2(e)) by (nonlinear_arith)
                        requires
                            m == p * q + r,
                    ;
                    assert(0 <= r * pow2(e) < p * pow2(e)) by (nonlinear_arith)
                        requires
                            0 <= r < p,
                            pow2(e) > 0,
                    ;
                    lemma_fundamental_div_mod_converse(
                        v.units() as int,
                        pow2(1074) as int,
                        q as int,
                        (r * pow2(e)) as int,
                    );
                    assert(whole(v) == q);
                }
                if s >= 64 {
                    proof {
                        if s > 64 {
                            lemma_pow2_strictly_increases(64, s as nat);
                        }
                        let p = pow2(s as nat);
                        assert(m / p == 0) by (nonlinear_arith)
                            requires
                                0 <= m < p,
                        ;
                    }
                    0
                } else {
                    proof {
                        lemma_u64_shr_is_div(mantissa, s as u64);
                        assert(m / pow2(s as nat) <= m) by (nonlinear_arith)
                            requires
                                pow2(s as nat) > 0,
                                m >= 0,
                        ;
                    }
                    mantissa >> s
                }
            }
        },
        _ => 0,
    }
}

/// The number cut to an unsigned integer.
pub fn unsigned(v: Double) -> (r: u64)
    requires
        v.wf(),
    ensures
        r == to_unsigned(v, u64::MAX as nat),
{
    match v.magnitude {
        Magnitude::NotANumber => 0,
        Magnitude::Infinite => if v.negative { 0 } else { u64::MAX },
        Magnitude::Finite { .. } => if v.negative { 0 } else { whole_of(v) },
    }
}

/// The number cut to a signed integer.
pub fn signed(v: Double) -> (r: i32)
    requires
        v.wf(),
    ensures
        r == to_signed(v, i32::MAX as nat),
{
    match v.magnitude {
        Magnitude::NotANumber => 0,
        Magnitude::Infinite => if v.negative { i32::MIN } else { i32::MAX },
        Magnitude::Finite { .. } => {
            let w = whole_of(v);
            if v.negative {
                if w > i32::MAX as u64 {
                    i32::MIN
                } else {
                    -(w as i32)
                }
            } else if w > i32::MAX as u64 {
                i32::MAX
            } else {
                w as i32
            }
        },
    }
}

// ---- comparison --------------------------------------------------------------------------------

/// Whether a number is greater than the integer `c`.
pub open spec fn exceeds(v: Double, c: nat) -> bool {
    match v.magnitude {
        Magnitude::NotANumber => false,
        Magnitude::Infinite => !v.negative,
        Magnitude::Finite { .. } => !v.negative && v.units() > c * pow2(1074),
    }
}

/// Whether a number is smaller than the positive integer `c`.
pub open spec fn under(v: Double, c: nat) -> bool {
    match v.magnitude {
        Magnitude::NotANumber => false,
        Magnitude::Infinite => v.negative,
        Magnitude::Finite { .. } => v.negative || v.units() < c * pow2(1074),
    }
}

fn units_of(mantissa: u64, exponent: u32) -> (r: Natural)
    ensures
        r@ == mantissa as nat * pow2(exponent as nat),
{
    let mut n = Natural::new(mantissa);
    n.shift(exponent);
    n
}

/// Whether `v` is greater than `c`.
pub fn is_above(v: Double, c: u32) -> (r: bool)
    ensures
        r == exceeds(v, c as nat),
{
    match v.magnitude {
        Magnitude::NotANumber => false,
        Magnitude::Infinite => !v.negative,
        Magnitude::Finite { mantissa, exponent } => {
            let n = units_of(mantissa, exponent);
            let t = units_of(c as u64, 1074);
            !v.negative && t.less(&n)
        },
    }
}

/// Whether `v` is smaller than `c`.
pub fn is_below(v: Double, c: u32) -> (r: bool)
    requires
        c > 0,
    ensures
        r == under(v, c as nat),
{
    match v.magnitude {
        Magnitude::NotANumber => false,
        Magnitude::Infinite => v.negative,
        Magnitude::Finite { mantissa, exponent } => {
            let n = units_of(mantissa, exponent);
            let t = units_of(c as u64, 1074);
            v.negative || n.less(&t)
        },
    }
}

// ---- sums and products of sizes -------------------------------------------------------------------

/// The rounded product of two sizes; infinity times zero is not a number.
pub open spec fn product(x: Magnitude, y: Magnitude) -> Magnitude {
    match (x, y) {
        (Magnitude::Finite { mantissa: m, exponent: e }, Magnitude::Finite { mantissa: n, exponent: f }) => {
            nearest(
                (m as nat * pow2(e as nat)) * (n as nat * pow2(f as nat)),
                pow2(2148),
            )
        },
        (Magnitude::NotANumber, _) => Magnitude::NotANumber,
        (_, Magnitude::NotANumber) => Magnitude::NotANumber,
        (Magnitude::Finite { mantissa, .. }, Magnitude::Infinite) => infinite_times(mantissa),
        (Magnitude::Infinite, Magnitude::Finite { mantissa, .. }) => infinite_times(mantissa),
        (Magnitude::Infinite, Magnitude::Infinite) => Magnitude::Infinite,
    }
}

/// Infinity times a finite size with the given mantissa.
pub open spec fn infinite_times(mantissa: u64) -> Magnitude {
    if mantissa == 0 {
        Magnitude::NotANumber
    } else {
        Magnitude::Infinite
    }
}

/// The rounded sum of two sizes.
pub open spec fn sum(x: Magnitude, y: Magnitude) -> Magnitude {
    match (x, y) {
        (Magnitude::Finite { mantissa: m, exponent: e }, Magnitude::Finite { mantissa: n, exponent: f }) => {
            nearest(m as nat * pow2(e as nat) + n as nat * pow2(f as nat), pow2(1074))
        },
        (Magnitude::NotANumber, _) => Magnitude::NotANumber,
        (_, Magnitude::NotANumber) => Magnitude::NotANumber,
        _ => Magnitude::Infinite,
    }
}

/// `x * y`.
pub fn multiply(x: Magnitude, y: Magnitude) -> (r: Magnitude)
    ensures
        r == product(x, y),
        r.wf(),
{
    proof {
        lemma2_to64();
        lemma2_to64_rest();
        lemma_pow2_pos(2148);
    }
    match (x, y) {
        (Magnitude::Finite { mantissa: m, exponent: e }, Magnitude::Finite { mantissa: n, exponent: f }) => {
            let lo: u32 = (n % 0x1_0000_0000) as u32;
            let hi: u32 = (n / 0x1_0000_0000) as u32;
            let mut a = units_of(m, e);
            let mut b = units_of(m, e);
            let ghost u = a@;
            b.mul_add(hi, 0);
            b.shift(32);
            a.mul_add(lo, 0);
            a.add_to(&b);
            assert(a@ == u * n) by (nonlinear_arith)
                requires
                    a@ == u * lo + 0 + (u * hi + 0) * 0x1_0000_0000,
                    n == hi * 0x1_0000_0000 + lo,
            ;
            a.shift(f);
            assert(a@ == u * (n as nat * pow2(f as nat))) by (nonlinear_arith)
                requires
                    a@ == (u * n) * pow2(f as nat),
            ;
            let d = units_of(1, 2148);
            assert(1 * pow2(2148) == pow2(2148));
            round(a, d)
        },
        (Magnitude::NotANumber, _) => Magnitude::NotANumber,
        (_, Magnitude::NotANumber) => Magnitude::NotANumber,
        (Magnitude::Finite { mantissa, .. }, Magnitude::Infinite) => if mantissa == 0 {
            Magnitude::NotANumber
        } else {
            Magnitude::Infinite
        },
        (Magnitude::Infinite, Magnitude::Finite { mantissa, .. }) => if mantissa == 0 {
            Magnitude::NotANumber
        } else {
            Magnitude::Infinite
        },
        (Magnitude::Infinite, Magnitude::Infinite) => Magnitude::Infinite,
    }
}

/// `x + y`.
pub fn add_sizes(x: Magnitude, y: Magnitude) -> (r: Magnitude)
    ensures
        r == sum(x, y),
        r.wf(),
{
    proof {
        lemma_pow2_pos(1074);
    }
    match (x, y) {
        (Magnitude::Finite { mantissa: m, exponent: e }, Magnitude::Finite { mantissa: n, exponent: f }) => {
            let mut a = units_of(m, e);
            let b = units_of(n, f);
            a.add_to(&b);
            let d = units_of(1, 1074);
            assert(1 * pow2(1074) == pow2(1074));
            round(a, d)
        },
        (Magnitude::NotANumber, _) => Magnitude::NotANumber,
        (_, Magnitude::NotANumber) => Magnitude::NotANumber,
        _ => Magnitude::Infinite,
    }
}

// ---- bit patterns -------------------------------------------------------------------------------------

pub const SIGN_BIT: u64 = 0x8000_0000_0000_0000;

pub const INFINITE_BITS: u64 = 0x7ff0_0000_0000_0000;

/// The binary64 pattern of a number; a not-a-number has the quiet pattern.
pub open spec fn bits(v: Double) -> nat {
    (if v.negative {
        SIGN_BIT as nat
    } else {
        0
    }) + match v.magnitude {
        Magnitude::Finite { mantissa, exponent } => mantissa as nat + exponent as nat
            * MANTISSA_NORMAL as nat,
        Magnitude::Infinite => INFINITE_BITS as nat,
        Magnitude::NotANumber => INFINITE_BITS as nat + MANTISSA_NORMAL as nat / 2,
    }
}

/// The binary64 pattern of `v`.
pub fn to_bits(v: Double) -> (r: u64)
    requires
        v.wf(),
    ensures
        r == bits(v),
{
    let body: u64 = match v.magnitude {
        Magnitude::Finite { mantissa, exponent } => mantissa + exponent as u64 * MANTISSA_NORMAL,
        Magnitude::Infinite => INFINITE_BITS,
        Magnitude::NotANumber => INFINITE_BITS + MANTISSA_NORMAL / 2,
    };
    if v.negative {
        SIGN_BIT + body
    } else {
        body
    }
}

/// The number whose binary64 pattern is `b`; every not-a-number pattern gives the same one.
pub fn from_bits(b: u64) -> (r: Double)
    ensures
        r.wf(),
        r.negative == (b >= SIGN_BIT),
        b % SIGN_BIT <= INFINITE_BITS ==> bits(r) == b,
        (r.magnitude is NotANumber) == (b % SIGN_BIT > INFINITE_BITS),
{
    let negative = b >= SIGN_BIT;
    let body: u64 = if negative { b - SIGN_BIT } else { b };
    if body > INFINITE_BITS {
        return Double { negative, magnitude: Magnitude::NotANumber };
    }
    if body == INFINITE_BITS {
        return Double { negative, magnitude: Magnitude::Infinite };
    }
    if body < MANTISSA_LIMIT {
        return Double { negative, magnitude: Magnitude::Finite { mantissa: body, exponent: 0 } };
    }
    let exponent: u32 = (body / MANTISSA_NORMAL - 1) as u32;
    let mantissa: u64 = body % MANTISSA_NORMAL + MANTISSA_NORMAL;
    Double { negative, magnitude: Magnitude::Finite { mantissa, exponent } }
}

/// A number is given back by its bit pattern.
pub proof fn bits_determine_a_number(v: Double, w: Double)
    requires
        v.wf(),
        w.wf(),
        bits(v) == bits(w),
    ensures
        v == w,
{
}

} // verus!
