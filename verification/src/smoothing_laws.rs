//! The smoothed time to an acknowledgement, and the level it leads to, told from
//! the exact times.
use vstd::prelude::*;
use vstd::arithmetic::power2::{
    lemma2_to64, lemma2_to64_rest, lemma_pow2_adds, lemma_pow2_pos, lemma_pow2_strictly_increases,
    pow2,
};
use crate::double::{Double, Magnitude, nearest};
use crate::number_laws::{
    near, products_are_near, sums_are_near, the_nearest_double_is_near, units_in,
};
use crate::arith::{product, sum};
use crate::sender::{Link, acknowledged, fresh};
use crate::stream::{milliseconds, smoothed};

verus! {

/// The unit of the laws below: one millisecond, in units of 2^-1074.
pub open spec fn one_ms() -> int {
    pow2(1074) as int
}

proof fn lemma_sizes()
    ensures
        pow2(52) == 4503599627370496,
        pow2(53) == 9007199254740992,
        one_ms() > 0x1_0000_0000_0000_0000_0000_0000_0000_0000,
        one_ms() >= pow2(52) * 1024 * 1024 * 1024 * 1024 * 1024 * 1024,
{
    lemma2_to64();
    lemma2_to64_rest();
    lemma_pow2_adds(64, 64);
    lemma_pow2_strictly_increases(128, 1074);
    assert(pow2(64) * pow2(64) == 0x1_0000_0000_0000_0000_0000_0000_0000_0000);
}

/// `r` tenths of `v`, as a rounded product with a rounded factor.
proof fn lemma_tenths(r: int, k: int, b: int, u: int, c: int, v: int, p: int)
    requires
        0 <= r <= 7,
        k > 1024,
        b == 4503599627370496,
        u >= b * 1024 * 1024,
        c >= 0,
        v >= 0,
        near(k * (c * 10), k * (r * u), r * u + b * 10),
        near(k * (p * u), k * (c * v), c * v + b * u),
    ensures
        near(k * (10 * p), k * (r * v), 16 * v + 16 * b),
{
    let ru = r * u;
    assert(ru <= 7 * u) by (nonlinear_arith)
        requires
            ru == r * u,
            r <= 7,
            u > 0,
    ;
    assert(10 * c <= 8 * u) by (nonlinear_arith)
        requires
            k * (c * 10) <= k * ru + (ru + b * 10),
            ru <= 7 * u,
            b * 10 <= u,
            k > 1024,
            u > 0,
    ;
    let e1 = k * (p * u) - k * (c * v);
    let e2 = k * (c * 10) - k * (r * u);
    let diff = k * (10 * p) - k * (r * v);
    let (kp, kr) = (k * (10 * p), k * (r * v));
    let (kc, ku) = (k * (c * 10), k * (r * u));
    assert(kp * u == 10 * (k * (p * u))) by (nonlinear_arith)
        requires
            kp == k * (10 * p),
    ;
    assert(kr * u == v * ku) by (nonlinear_arith)
        requires
            kr == k * (r * v),
            ku == k * (r * u),
    ;
    assert(v * kc == 10 * (k * (c * v))) by (nonlinear_arith)
        requires
            kc == k * (c * 10),
    ;
    assert(diff * u == kp * u - kr * u) by (nonlinear_arith)
        requires
            diff == kp - kr,
    ;
    assert(v * e2 == v * kc - v * ku) by (nonlinear_arith)
        requires
            e2 == kc - ku,
    ;
    assert(diff * u == 10 * e1 + v * e2);
    let f1 = c * v + b * u;
    let f2 = r * u + b * 10;
    assert(-(v * f2) <= v * e2 <= v * f2) by (nonlinear_arith)
        requires
            -f2 <= e2 <= f2,
            v >= 0,
    ;
    let bound = 16 * v + 16 * b;
    assert(10 * f1 + v * f2 <= bound * u) by (nonlinear_arith)
        requires
            f1 == c * v + b * u,
            f2 == r * u + b * 10,
            10 * c <= 8 * u,
            b * 10 <= u,
            r <= 7,
            bound == 16 * v + 16 * b,
            v >= 0,
            u > 0,
            b > 0,
    {
        assert(10 * (c * v) <= 8 * (u * v)) by (nonlinear_arith)
            requires
                10 * c <= 8 * u,
                v >= 0,
        ;
        assert(v * (r * u) <= 7 * (u * v)) by (nonlinear_arith)
            requires
                r <= 7,
                v >= 0,
                u > 0,
        ;
        assert(v * (b * 10) <= u * v) by (nonlinear_arith)
            requires
                b * 10 <= u,
                v >= 0,
        ;
    }
    assert(-bound <= diff <= bound) by (nonlinear_arith)
        requires
            -(bound * u) <= diff * u <= bound * u,
            u > 0,
    ;
}

/// A smoothed time is 0.7 of the time held before and 0.3 of the newest, to a few
/// parts in 2^53; from finite times it is never not a number, and infinite only
/// where they are astronomic.
pub proof fn a_smoothed_time_weighs_the_old_and_the_new(v: Magnitude, t: Magnitude)
    requires
        v is Finite,
        t is Finite,
    ensures
        smoothed(v, t) is Finite ==> near(
            pow2(53) * (10 * units_in(smoothed(v, t)) as int),
            pow2(53) * (7 * units_in(v) as int + 3 * units_in(t)),
            32 * (units_in(v) as int + units_in(t)) + 1024 * pow2(52),
        ),
        units_in(v) <= 1_000_000_000 * one_ms() && units_in(t) <= 1_000_000_000 * one_ms()
            ==> smoothed(v, t) is Finite,
        !(smoothed(v, t) is NotANumber),
{
    lemma_sizes();
    let (k, b, u) = (pow2(53) as int, pow2(52) as int, one_ms());
    let (a, d) = (units_in(v) as int, units_in(t) as int);
    let (seven, three) = (nearest(7, 10), nearest(3, 10));
    lemma_pow2_pos(1023);
    assert(7 < pow2(1023) * 10 && 3 < pow2(1023) * 10) by {
        lemma_pow2_strictly_increases(53, 1023);
    }
    the_nearest_double_is_near(7, 10);
    the_nearest_double_is_near(3, 10);
    let (c7, c3) = (units_in(seven) as int, units_in(three) as int);
    products_are_near(seven, v);
    products_are_near(three, t);
    let (x, y) = (product(seven, v), product(three, t));
    if a <= 1_000_000_000 * u && d <= 1_000_000_000 * u {
        lemma_moderate(c7, a);
        lemma_moderate(c3, d);
    }
    if x is Finite && y is Finite {
        let (p, q) = (units_in(x) as int, units_in(y) as int);
        lemma_tenths(7, k, b, u, c7, a, p);
        lemma_tenths(3, k, b, u, c3, d, q);
        sums_are_near(x, y);
        assert(10 * p <= 8 * a + b && 10 * q <= 8 * d + b) by (nonlinear_arith)
            requires
                k * (10 * p) <= k * (7 * a) + (16 * a + 16 * b),
                k * (10 * q) <= k * (3 * d) + (16 * d + 16 * b),
                k > 1024,
                a >= 0,
                d >= 0,
                b > 0,
        ;
        if a <= 1_000_000_000 * u && d <= 1_000_000_000 * u {
            let (h, g) = (pow2(1023) as int, p + q);
            lemma_pow2_strictly_increases(53, 1023);
            assert(g < h * u) by (nonlinear_arith)
                requires
                    10 * g <= 16 * (1_000_000_000 * u) + 2 * b,
                    b <= u,
                    h > 9007199254740992,
                    u > 0,
            ;
        }
        if smoothed(v, t) is Finite {
            let s = units_in(smoothed(v, t)) as int;
            assert(near(k * (10 * s), k * (7 * a + 3 * d), 32 * (a + d) + 1024 * b)) by {
                assert(k * (10 * s) - k * (10 * (p + q)) == 10 * (k * s - k * (p + q)))
                    by (nonlinear_arith);
                assert(k * (10 * (p + q)) == k * (10 * p) + k * (10 * q)) by (nonlinear_arith);
                assert(k * (7 * a + 3 * d) == k * (7 * a) + k * (3 * d)) by (nonlinear_arith);
            }
        }
    }
}

/// A factor below one times a moderate time is far from too large.
proof fn lemma_moderate(c: int, a: int)
    requires
        0 <= a <= 1_000_000_000 * one_ms(),
        c >= 0,
        near(pow2(53) * (c * 10), pow2(53) * (7 * one_ms()), 7 * one_ms() + pow2(52) * 10) || near(
            pow2(53) * (c * 10),
            pow2(53) * (3 * one_ms()),
            3 * one_ms() + pow2(52) * 10,
        ),
    ensures
        c * a < pow2(1023) * pow2(2148),
{
    lemma_sizes();
    let (k, u, h) = (pow2(53) as int, one_ms(), pow2(1023) as int);
    lemma_pow2_adds(1074, 1074);
    lemma_pow2_strictly_increases(53, 1023);
    assert(c <= u) by (nonlinear_arith)
        requires
            k * (c * 10) <= k * (7 * u) + 8 * u,
            k > 1024,
            u > 0,
    ;
    assert(c * a <= 1_000_000_000 * (u * u)) by (nonlinear_arith)
        requires
            0 <= c <= u,
            0 <= a <= 1_000_000_000 * u,
    ;
    assert(1_000_000_000 * (u * u) < h * (u * u)) by (nonlinear_arith)
        requires
            h > 9007199254740992,
            u > 0,
    ;
}

// ---- the measured time --------------------------------------------------------------------------

/// `a` thousand millionths, summed from rounded seconds and nanoseconds.
proof fn lemma_seconds(k: int, b: int, u: int, secs: int, nanos: int, q1: int, q2: int, a: int)
    requires
        k == 9007199254740992,
        b == 4503599627370496,
        u >= b,
        secs >= 0,
        nanos >= 0,
        near(k * (q1 * 1), k * (secs * u), secs * u + b * 1),
        near(k * (q2 * 1_000_000_000), k * (nanos * u), nanos * u + b * 1_000_000_000),
        near(k * a, k * (q1 + q2), q1 + q2 + b),
    ensures
        ({
            let w = (secs * 1_000_000_000 + nanos) * u;
            near(k * (a * 1_000_000_000), k * w, 3 * w + 5_000_000_000 * b)
        }),
{
    let (x, y) = (secs * u, nanos * u);
    let w = (secs * 1_000_000_000 + nanos) * u;
    assert(w == 1_000_000_000 * x + y && x >= 0 && y >= 0) by (nonlinear_arith)
        requires
            w == (secs * 1_000_000_000 + nanos) * u,
            x == secs * u,
            y == nanos * u,
            secs >= 0,
            nanos >= 0,
            u >= 0,
    ;
}

/// Milliseconds, as a rounded product with a rounded thousand.
proof fn lemma_thousand(k: int, b: int, u: int, w: int, a: int, c: int, t: int)
    requires
        k == 9007199254740992,
        b == 4503599627370496,
        u >= b * 1024,
        w >= 0,
        a >= 0,
        near(k * (a * 1_000_000_000), k * w, 3 * w + 5_000_000_000 * b),
        near(k * (c * 1), k * (1000 * u), 1000 * u + b * 1),
        near(k * (t * u), k * (a * c), a * c + b * u),
    ensures
        near(k * (1_000_000 * t), k * w, 8 * w + 11_000_000_000 * b),
{
    let g = 1_000_000_000int;
    let big = a * g;
    assert(big <= 2 * w + g * b);
    assert(0 <= c <= 1001 * u);
    let e1 = k * (t * u) - k * (a * c);
    let e2 = k * c - k * (1000 * u);
    let e3 = k * big - k * w;
    let ac = a * c;
    let bc = big * c;
    assert(bc == g * ac) by (nonlinear_arith)
        requires
            bc == big * c,
            big == a * g,
            ac == a * c,
    ;
    assert(0 <= bc <= 1001 * (u * big)) by (nonlinear_arith)
        requires
            bc == big * c,
            0 <= c <= 1001 * u,
            big >= 0,
    ;
    let ub = u * big;
    assert(ub <= 2 * (u * w) + g * (b * u)) by (nonlinear_arith)
        requires
            ub == u * big,
            big <= 2 * w + g * b,
            u > 0,
    ;
    assert(-(1001 * ub) <= big * e2 <= 1001 * ub) by (nonlinear_arith)
        requires
            -(1000 * u + b) <= e2 <= 1000 * u + b,
            b <= u,
            big >= 0,
            ub == u * big,
    ;
    let uw = u * w;
    let bu = b * u;
    let bound3 = 3 * w + 5_000_000_000 * b;
    assert(-(3 * uw + 5_000_000_000 * bu) <= u * e3 <= 3 * uw + 5_000_000_000 * bu)
        by (nonlinear_arith)
        requires
            -bound3 <= e3 <= bound3,
            bound3 == 3 * w + 5_000_000_000 * b,
            uw == u * w,
            bu == b * u,
            u > 0,
    ;
    let diff = k * (1_000_000 * t) - k * w;
    let (tu, ku) = (t * u, k * u);
    assert(1000 * (diff * u) == g * e1 + big * e2 + 1000 * (u * e3)) by {
        assert(diff * u == 1_000_000 * (k * tu) - k * uw) by (nonlinear_arith)
            requires
                diff == k * (1_000_000 * t) - k * w,
                tu == t * u,
                uw == u * w,
        ;
        assert(big * e2 == k * bc - 1000 * (k * ub)) by (nonlinear_arith)
            requires
                e2 == k * c - k * (1000 * u),
                bc == big * c,
                ub == u * big,
        ;
        assert(u * e3 == k * ub - k * uw) by (nonlinear_arith)
            requires
                e3 == k * big - k * w,
                ub == u * big,
                uw == u * w,
        ;
    }
    let bound = 8 * w + 11_000_000_000 * b;
    assert(bound * u == 8 * uw + 11_000_000_000 * bu) by (nonlinear_arith)
        requires
            bound == 8 * w + 11_000_000_000 * b,
            uw == u * w,
            bu == b * u,
    ;
    assert(uw >= 0 && bu >= 0) by (nonlinear_arith)
        requires
            uw == u * w,
            bu == b * u,
            u > 0,
            w >= 0,
            b > 0,
    ;
    assert(-bound <= diff <= bound) by (nonlinear_arith)
        requires
            -(bound * u) <= diff * u <= bound * u,
            u > 0,
    ;
}

/// A span is its nanoseconds over a million, in milliseconds, to a few parts in
/// 2^53.
pub proof fn a_span_is_its_milliseconds(secs: u64, nanos: u32)
    ensures
        milliseconds(secs as nat, nanos as nat) is Finite,
        ({
            let w = (secs * 1_000_000_000 + nanos) * one_ms();
            near(
                pow2(53) * (1_000_000 * units_in(milliseconds(secs as nat, nanos as nat))) as int,
                pow2(53) * w,
                8 * w + 11_000_000_000 * pow2(52),
            )
        }),
{
    lemma_sizes();
    let (k, b, u, h) = (pow2(53) as int, pow2(52) as int, one_ms(), pow2(1023) as int);
    lemma2_to64_rest();
    lemma_pow2_adds(64, 64);
    lemma_pow2_strictly_increases(128, 1023);
    assert(h > 0x1_0000_0000_0000_0000_0000_0000_0000_0000);
    the_nearest_double_is_near(secs as nat, 1);
    the_nearest_double_is_near(nanos as nat, 1_000_000_000);
    the_nearest_double_is_near(1000, 1);
    let (x, y, th) = (
        nearest(secs as nat, 1),
        nearest(nanos as nat, 1_000_000_000),
        nearest(1000, 1),
    );
    let (q1, q2, c) = (units_in(x) as int, units_in(y) as int, units_in(th) as int);
    let (su, nu) = (secs * u, nanos * u);
    assert(0 <= su <= 0x1_0000_0000_0000_0000 * u && 0 <= nu <= 0x1_0000_0000 * u)
        by (nonlinear_arith)
        requires
            su == secs * u,
            nu == nanos * u,
            u > 0,
            secs <= 0x1_0000_0000_0000_0000,
            nanos <= 0x1_0000_0000,
    ;
    assert(q1 <= 2 * su + b);
    assert(q2 <= 2 * nu + b);
    sums_are_near(x, y);
    assert(q1 + q2 < h * u) by (nonlinear_arith)
        requires
            q1 + q2 <= 4 * (0x1_0000_0000_0000_0000 * u) + 2 * u,
            h > 0x1_0000_0000_0000_0000_0000_0000_0000_0000,
            u > 0,
    ;
    let a = units_in(sum(x, y)) as int;
    lemma_seconds(k, b, u, secs as int, nanos as int, q1, q2, a);
    assert(a <= 2 * (q1 + q2) + b);
    products_are_near(sum(x, y), th);
    lemma_pow2_adds(1074, 1074);
    assert(0 <= c <= 1001 * u);
    assert(a * c < h * (u * u)) by (nonlinear_arith)
        requires
            0 <= a <= 0x10_0000_0000_0000_0000 * u,
            0 <= c <= 1001 * u,
            h > 0x1_0000_0000_0000_0000_0000_0000_0000_0000,
            u > 0,
    {
        assert(a * c <= (0x10_0000_0000_0000_0000 * u) * (1001 * u)) by (nonlinear_arith)
            requires
                0 <= a <= 0x10_0000_0000_0000_0000 * u,
                0 <= c <= 1001 * u,
                u > 0,
        ;
        assert((0x10_0000_0000_0000_0000 * u) * (1001 * u) == (0x10_0000_0000_0000_0000 * 1001) * (u
            * u)) by (nonlinear_arith);
    }
    let t = units_in(milliseconds(secs as nat, nanos as nat)) as int;
    let w = (secs * 1_000_000_000 + nanos) * u;
    assert(w >= 0) by (nonlinear_arith)
        requires
            w == (secs * 1_000_000_000 + nanos) * u,
            secs >= 0,
            nanos >= 0,
            u > 0,
    ;
    lemma_thousand(k, b, u, w, a, c, t);
}

// ---- the level ----------------------------------------------------------------------------------

/// Seven million times the smoothed time held before and three times the
/// nanoseconds measured: ten million times `0.7 v + 0.3 t`, in milliseconds.
pub open spec fn weighed(s: Link, secs: u64, nanos: u32) -> int {
    7_000_000 * units_in(s.ewma) + 3 * ((secs * 1_000_000_000 + nanos) * one_ms())
}

/// `ms` milliseconds on the scale of `weighed`.
pub open spec fn on_scale(ms: int) -> int {
    ms * (10_000_000 * one_ms())
}

/// The smoothed time after an acknowledgement is 0.7 of the one before and 0.3 of
/// the time measured, to a few parts in 2^53.
pub proof fn an_acknowledgement_is_smoothed_in(s: Link, secs: u64, nanos: u32)
    requires
        s.in_flight,
        s.ewma is Finite,
    ensures
        ({
            let (after, x) = (acknowledged(s, secs, nanos).ewma, weighed(s, secs, nanos));
            &&& !(after is NotANumber)
            &&& after is Finite ==> near(
                pow2(53) * (10_000_000 * units_in(after) as int),
                pow2(53) * x,
                30 * x + one_ms(),
            )
            &&& x <= on_scale(1_000_000) ==> after is Finite
        }),
{
    lemma_sizes();
    let t = milliseconds(secs as nat, nanos as nat);
    a_span_is_its_milliseconds(secs, nanos);
    a_smoothed_time_weighs_the_old_and_the_new(s.ewma, t);
    let (v, u) = (units_in(s.ewma) as int, one_ms());
    let w = (secs * 1_000_000_000 + nanos) * u;
    assert(w >= 0) by (nonlinear_arith)
        requires
            w == (secs * 1_000_000_000 + nanos) * u,
            secs >= 0,
            nanos >= 0,
            u > 0,
    ;
    let tu = units_in(t) as int;
    assert(1_000_000 * tu <= 2 * w + u);
}

/// A link whose weighed time lies between the thresholds keeps its level; one
/// above them steps down at once; one below them steps up after enough
/// acknowledgements, and keeps its level before. A part in a thousand million
/// around each threshold is left to rounding.
pub proof fn the_weighed_time_picks_the_level(s: Link, secs: u64, nanos: u32)
    requires
        s.in_flight,
        s.ewma is Finite,
        s.level <= 5,
    ensures
        ({
            let (x, next) = (weighed(s, secs, nanos), acknowledged(s, secs, nanos).level);
            let m = 1_000_000_000int;
            &&& (m + 1) * on_scale(90) <= m * x <= (m - 1) * on_scale(220) ==> next == s.level
            &&& m * x >= (m + 1) * on_scale(220) ==> next == (if s.level < 5 {
                s.level + 1
            } else {
                5
            })
            &&& m * x <= (m - 1) * on_scale(90) ==> next == (if s.acks + 1 >= 10 && s.level > 0 {
                s.level - 1
            } else {
                s.level as int
            })
        }),
{
    lemma_sizes();
    an_acknowledgement_is_smoothed_in(s, secs, nanos);
    let after = acknowledged(s, secs, nanos).ewma;
    let (x, u) = (weighed(s, secs, nanos), one_ms());
    let d = Double { negative: false, magnitude: after };
    let m = 1_000_000_000int;
    assert(x >= 0) by {
        let w = (secs * 1_000_000_000 + nanos) * u;
        assert(w >= 0) by (nonlinear_arith)
            requires
                w == (secs * 1_000_000_000 + nanos) * u,
                secs >= 0,
                nanos >= 0,
                u > 0,
        ;
    }
    if after is Finite {
        let a = units_in(after) as int;
        assert(d.units() == a);
        if (m + 1) * on_scale(90) <= m * x {
            assert(a >= 90 * u);
        }
        if m * x <= (m - 1) * on_scale(220) {
            assert(a <= 220 * u);
        }
        if m * x >= (m + 1) * on_scale(220) {
            assert(a > 220 * u);
        }
        if m * x <= (m - 1) * on_scale(90) {
            assert(a < 90 * u);
        }
    }
}

/// A sender begins as if its images took 120 ms, and so at a level that it keeps
/// until it knows better: an acknowledgement after 20 to 450 ms changes nothing.
pub proof fn a_sender_begins_with_a_guess(secs: u64, nanos: u32)
    requires
        20_000_000 < secs * 1_000_000_000 + nanos < 450_000_000,
    ensures
        fresh().ewma is Finite,
        near(
            pow2(53) * units_in(fresh().ewma) as int,
            pow2(53) * (120 * one_ms()),
            120 * one_ms() + pow2(52),
        ),
        acknowledged(Link { in_flight: true, ..fresh() }, secs, nanos).level == 1,
{
    lemma_sizes();
    lemma_pow2_strictly_increases(53, 1023);
    the_nearest_double_is_near(120, 1);
    let s = Link { in_flight: true, ..fresh() };
    let u = one_ms();
    let v = units_in(s.ewma) as int;
    let t = secs * 1_000_000_000 + nanos;
    let w = t * u;
    assert(20_000_001 * u <= w <= 450_000_000 * u) by (nonlinear_arith)
        requires
            w == t * u,
            20_000_000 < t < 450_000_000,
            u > 0,
    ;
    assert(v * 1 == v);
    the_weighed_time_picks_the_level(s, secs, nanos);
}

/// An acknowledgement of an image that was not in flight teaches nothing: the
/// smoothed time, the level and the count stay.
pub proof fn an_unmeasured_acknowledgement_teaches_nothing(s: Link, secs: u64, nanos: u32)
    requires
        !s.in_flight,
    ensures
        acknowledged(s, secs, nanos).ewma == s.ewma,
        acknowledged(s, secs, nanos).level == s.level,
        acknowledged(s, secs, nanos).acks == s.acks,
{
}

/// Each measured acknowledgement at a level is counted, and a change of level
/// starts the count again.
pub proof fn acknowledgements_are_counted(s: Link, secs: u64, nanos: u32)
    requires
        s.in_flight,
        s.acks < u32::MAX,
    ensures
        acknowledged(s, secs, nanos).acks == (if acknowledged(s, secs, nanos).level == s.level {
            s.acks + 1
        } else {
            0
        }),
        acknowledged(s, secs, nanos).last == s.last,
        acknowledged(s, secs, nanos).silent == 0,
        !acknowledged(s, secs, nanos).in_flight,
{
}

} // verus!
