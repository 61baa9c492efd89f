//! Double-precision numbers, held as integers.
//!
//! A finite number is `mantissa * 2^exponent` in units of the smallest
//! positive double, 2^-1074. Every operation here is exact integer arithmetic
//! followed by one rounding to the nearest double, ties to the even mantissa.
use vstd::prelude::*;
use vstd::arithmetic::power2::{lemma2_to64, lemma2_to64_rest, lemma_pow2_adds, lemma_pow2_pos, lemma_pow2_strictly_increases, lemma_pow2_unfold, pow2};
use vstd::arithmetic::div_mod::lemma_fundamental_div_mod_converse;
use crate::natural::Natural;

verus! {

pub const MANTISSA_LIMIT: u64 = 0x20_0000_0000_0000;

pub const MANTISSA_NORMAL: u64 = 0x10_0000_0000_0000;

pub const EXPONENT_MAX: u32 = 2045;

/// The size of a number.
#[derive(Clone, Copy, PartialEq, Eq, Debug, Structural)]
pub enum Magnitude {
    /// `mantissa * 2^exponent * 2^-1074`.
    Finite { mantissa: u64, exponent: u32 },
    Infinite,
    NotANumber,
}

/// A double-precision number.
#[derive(Clone, Copy, PartialEq, Eq, Debug, Structural)]
pub struct Double {
    pub negative: bool,
    pub magnitude: Magnitude,
}

impl Magnitude {
    /// Whether this is the one way in which its value is written.
    pub open spec fn wf(self) -> bool {
        match self {
            Magnitude::Finite { mantissa, exponent } => {
                &&& mantissa < MANTISSA_LIMIT
                &&& exponent <= EXPONENT_MAX
                &&& exponent > 0 ==> mantissa >= MANTISSA_NORMAL
            },
            _ => true,
        }
    }
}

impl Double {
    pub open spec fn wf(self) -> bool {
        self.magnitude.wf()
    }

    pub open spec fn finite(self) -> bool {
        self.magnitude is Finite
    }

    /// The size of a finite number, in units of 2^-1074.
    pub open spec fn units(self) -> nat {
        match self.magnitude {
            Magnitude::Finite { mantissa, exponent } => mantissa as nat * pow2(exponent as nat),
            _ => 0,
        }
    }
}

// ---- rounding -----------------------------------------------------------------------

/// `n / d` rounded to the nearest integer, ties to the even one.
pub open spec fn half_even(n: nat, d: nat) -> nat {
    let q = n / d;
    let r = n % d;
    if 2 * r < d || (2 * r == d && q % 2 == 0) {
        q
    } else {
        q + 1
    }
}

/// Whether numbers of the size of `n / d` are spaced `2^e` units apart.
pub open spec fn is_spacing(n: nat, d: nat, e: nat) -> bool {
    &&& n * pow2(1074) < pow2(53 + e) * d
    &&& e > 0 ==> pow2(52 + e) * d <= n * pow2(1074)
}

/// The exponent of the spacing of doubles at `n / d`.
pub open spec fn spacing(n: nat, d: nat) -> nat {
    choose|e: nat| is_spacing(n, d, e)
}

/// `mantissa * 2^exponent` units as a magnitude, infinite where it is too large.
pub open spec fn normal(mantissa: nat, exponent: nat) -> Magnitude {
    let (m, e) = if mantissa == pow2(53) {
        (pow2(52), exponent + 1)
    } else {
        (mantissa, exponent)
    };
    if e > EXPONENT_MAX {
        Magnitude::Infinite
    } else {
        Magnitude::Finite { mantissa: m as u64, exponent: e as u32 }
    }
}

/// The double nearest to `n / d`, ties to the even mantissa.
pub open spec fn nearest(n: nat, d: nat) -> Magnitude {
    let e = spacing(n, d);
    normal(half_even(n * pow2(1074), d * pow2(e)), e)
}

proof fn lemma_pow2_exceeds(n: nat)
    ensures
        pow2(n) > n,
    decreases n,
{
    lemma2_to64();
    lemma2_to64_rest();
    if n > 0 {
        lemma_pow2_exceeds((n - 1) as nat);
        lemma_pow2_unfold(n);
    }
}

/// No two exponents are both the spacing at `n / d`.
proof fn lemma_spacing_unique(n: nat, d: nat, e: nat, f: nat)
    requires
        d > 0,
        is_spacing(n, d, e),
        is_spacing(n, d, f),
    ensures
        e == f,
{
    if e < f {
        lemma_spacing_order(n, d, e, f);
    } else if f < e {
        lemma_spacing_order(n, d, f, e);
    }
}

proof fn lemma_spacing_order(n: nat, d: nat, e: nat, f: nat)
    requires
        d > 0,
        e < f,
        is_spacing(n, d, e),
    ensures
        !is_spacing(n, d, f),
{
    if 53 + e < 52 + f {
        lemma_pow2_strictly_increases(53 + e, 52 + f);
    }
    let (a, b) = (pow2(53 + e), pow2(52 + f));
    assert(a * d <= b * d) by (nonlinear_arith)
        requires
            a <= b,
    ;
}

pub proof fn lemma_spacing_is(n: nat, d: nat, e: nat)
    requires
        d > 0,
        is_spacing(n, d, e),
    ensures
        spacing(n, d) == e,
{
    lemma_spacing_unique(n, d, e, spacing(n, d));
}

/// Every ratio has a spacing.
pub proof fn lemma_spacing_exists(n: nat, d: nat)
    requires
        d > 0,
    ensures
        is_spacing(n, d, spacing(n, d)),
{
    let a = n * pow2(1074);
    lemma_pow2_exceeds(53 + a);
    assert(pow2(53 + a) * d >= pow2(53 + a)) by (nonlinear_arith)
        requires
            d >= 1,
    ;
    lemma_spacing_below(n, d, a);
}

proof fn lemma_spacing_below(n: nat, d: nat, e: nat)
    requires
        d > 0,
        n * pow2(1074) < pow2(53 + e) * d,
    ensures
        exists|f: nat| is_spacing(n, d, f),
    decreases e,
{
    if e == 0 || pow2(52 + e) * d <= n * pow2(1074) {
        assert(is_spacing(n, d, e));
    } else {
        lemma_spacing_below(n, d, (e - 1) as nat);
    }
}

proof fn lemma_half_even_bounds(n: nat, d: nat, lo: nat, hi: nat)
    requires
        d > 0,
        lo * d <= n,
        n < hi * d,
    ensures
        lo <= half_even(n, d) <= hi,
{
    vstd::arithmetic::div_mod::lemma_fundamental_div_mod(n as int, d as int);
    let q = n / d;
    assert(q >= lo) by (nonlinear_arith)
        requires
            lo * d <= n,
            n == d * q + n % d,
            n % d < d,
            d > 0,
    ;
    assert(q < hi) by (nonlinear_arith)
        requires
            n < hi * d,
            n == d * q + n % d,
            n % d >= 0,
            d > 0,
    ;
}

/// A rounded magnitude is written in its one way.
pub proof fn lemma_nearest_wf(n: nat, d: nat)
    requires
        d > 0,
    ensures
        nearest(n, d).wf(),
        !(nearest(n, d) is NotANumber),
{
    lemma_spacing_exists(n, d);
    let e = spacing(n, d);
    let a = n * pow2(1074);
    let de = d * pow2(e);
    lemma2_to64();
    lemma2_to64_rest();
    lemma_pow2_pos(e);
    lemma_pow2_adds(53, e);
    lemma_pow2_adds(52, e);
    assert(de > 0) by (nonlinear_arith)
        requires
            d > 0,
            pow2(e) > 0,
            de == d * pow2(e),
    ;
    assert(pow2(53 + e) * d == pow2(53) * de) by (nonlinear_arith)
        requires
            pow2(53 + e) == pow2(53) * pow2(e),
            de == d * pow2(e),
    ;
    assert(pow2(52 + e) * d == pow2(52) * de) by (nonlinear_arith)
        requires
            pow2(52 + e) == pow2(52) * pow2(e),
            de == d * pow2(e),
    ;
    let lo: nat = if e > 0 {
        pow2(52)
    } else {
        0
    };
    assert(lo * de <= a) by (nonlinear_arith)
        requires
            lo == 0 || (lo == pow2(52) && pow2(52) * de <= a),
    ;
    lemma_half_even_bounds(a, de, lo, pow2(53));
}

/// The double nearest to `n / d`.
pub fn round(n: Natural, d: Natural) -> (r: Magnitude)
    requires
        d@ > 0,
    ensures
        r == nearest(n@, d@),
        r.wf(),
{
    proof {
        lemma2_to64();
    lemma2_to64_rest();
        lemma_nearest_wf(n@, d@);
        lemma_spacing_exists(n@, d@);
    }
    let ghost (n0, d0) = (n@, d@);
    let mut a = n;
    a.shift(1074);
    let mut t = d;
    t.shift(53);
    let mut e: u32 = 0;
    assert(t@ == pow2(53) * d0) by (nonlinear_arith)
        requires
            t@ == d0 * pow2(53),
    ;
    // `t` is 2^53 times the spacing tried.
    while !a.less(&t)
        invariant
            n0 == n@,
            d0 == d@,
            is_spacing(n0, d0, spacing(n0, d0)),
            a@ == n0 * pow2(1074),
            t@ == pow2(53 + e as nat) * d0,
            d0 > 0,
            e <= EXPONENT_MAX,
            e > 0 ==> pow2(52 + e as nat) * d0 <= a@,
        decreases EXPONENT_MAX + 1 - e,
    {
        if e == EXPONENT_MAX {
            proof {
                lemma_beyond(n0, d0, spacing(n0, d0));
            }
            return Magnitude::Infinite;
        }
        t.mul_add(2, 0);
        proof {
            lemma_pow2_unfold((54 + e) as nat);
            assert(pow2((53 + e) as nat) * d0 * 2 == 2 * pow2((53 + e) as nat) * d0)
                by (nonlinear_arith);
        }
        e += 1;
    }
    proof {
        assert(is_spacing(n0, d0, e as nat));
        lemma_spacing_is(n0, d0, e as nat);
    }
    let ghost de = d0 * pow2(e as nat);
    proof {
        lemma_pow2_adds(53, e as nat);
        lemma_pow2_pos(e as nat);
        assert(de > 0) by (nonlinear_arith)
            requires
                d0 > 0,
                pow2(e as nat) > 0,
                de == d0 * pow2(e as nat),
        ;
        assert(t@ == pow2(53) * de) by (nonlinear_arith)
            requires
                t@ == pow2(53 + e as nat) * d0,
                pow2(53 + e as nat) == pow2(53) * pow2(e as nat),
                de == d0 * pow2(e as nat),
        ;
    }
    // Long division of `a` by `t / 2^53`, one bit of the quotient at a time.
    let ghost a0 = a@;
    let mut half = t;
    let mut q: u64 = 0;
    let mut i: u32 = 0;
    let ghost t0 = half@;
    let mut r = a;
    assert(a0 * pow2(0) == a0) by (nonlinear_arith)
        requires
            pow2(0) == 1,
    ;
    while i < 53
        invariant
            i <= 53,
            q < pow2(i as nat),
            half@ == t0,
            t0 == pow2(53) * de,
            r@ < t0,
            a0 * pow2(i as nat) == t0 * q + r@,
        decreases 53 - i,
    {
        proof {
            lemma2_to64();
    lemma2_to64_rest();
            lemma_pow2_unfold((i + 1) as nat);
            if i < 52 {
                lemma_pow2_strictly_increases((i + 1) as nat, 53);
            }
        }
        let ghost (q0, r0) = (q as int, r@ as int);
        r.mul_add(2, 0);
        if r.less(&half) {
            q = q * 2;
            assert(a0 * (2 * pow2(i as nat)) == t0 * (2 * q0) + 2 * r0) by (nonlinear_arith)
                requires
                    a0 * pow2(i as nat) == t0 * q0 + r0,
            ;
        } else {
            r.subtract(&half);
            q = q * 2 + 1;
            assert(a0 * (2 * pow2(i as nat)) == t0 * (2 * q0 + 1) + (2 * r0 - t0))
                by (nonlinear_arith)
                requires
                    a0 * pow2(i as nat) == t0 * q0 + r0,
            ;
        }
        i += 1;
    }
    let ghost rem = a0 - de * q;
    proof {
        lemma2_to64();
    lemma2_to64_rest();
        assert(a0 * pow2(53) == pow2(53) * de * q + r@);
        assert(pow2(53) * rem == r@) by (nonlinear_arith)
            requires
                a0 * pow2(53) == pow2(53) * de * q + r@,
                rem == a0 - de * q,
        ;
        assert(0 <= rem < de) by (nonlinear_arith)
            requires
                pow2(53) * rem == r@,
                r@ < pow2(53) * de,
                pow2(53) > 0,
        ;
        lemma_fundamental_div_mod_converse(a0 as int, de as int, q as int, rem);
    }
    // The remainder against half of the divisor.
    r.mul_add(2, 0);
    let below = r.less(&half);
    let above = half.less(&r);
    proof {
        assert(r@ == pow2(53) * (2 * rem)) by (nonlinear_arith)
            requires
                r@ == 2 * (pow2(53) * rem),
        ;
        assert(below == (2 * rem < de)) by (nonlinear_arith)
            requires
                below == (pow2(53) * (2 * rem) < pow2(53) * de),
                pow2(53) > 0,
        ;
        assert(above == (de < 2 * rem)) by (nonlinear_arith)
            requires
                above == (pow2(53) * de < pow2(53) * (2 * rem)),
                pow2(53) > 0,
        ;
    }
    let m: u64 = if below || (!above && q % 2 == 0) { q } else { q + 1 };
    assert(m == half_even(a0, de));
    if m == MANTISSA_LIMIT {
        if e == EXPONENT_MAX {
            Magnitude::Infinite
        } else {
            Magnitude::Finite { mantissa: MANTISSA_NORMAL, exponent: e + 1 }
        }
    } else {
        Magnitude::Finite { mantissa: m, exponent: e }
    }
}

/// A ratio at or above the top of the largest spacing rounds to infinity.
pub proof fn lemma_beyond(n: nat, d: nat, e: nat)
    requires
        d > 0,
        is_spacing(n, d, e),
        spacing(n, d) == e,
        pow2(53 + EXPONENT_MAX as nat) * d <= n * pow2(1074),
    ensures
        nearest(n, d) == Magnitude::Infinite,
{
    if e <= EXPONENT_MAX {
        if e < EXPONENT_MAX {
            lemma_pow2_strictly_increases(53 + e, 53 + EXPONENT_MAX as nat);
        }
        let (x, y) = (pow2(53 + e), pow2(53 + EXPONENT_MAX as nat));
        assert(x * d <= y * d) by (nonlinear_arith)
            requires
                x <= y,
        ;
    }
}

} // verus!
