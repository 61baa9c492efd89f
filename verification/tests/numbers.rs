//! Doubles held as integers agree with the machine's.
use std::time::Duration;

use cce_remote::arith::{
    add_sizes, from_bits, is_above, is_below, multiply, push_fixed, signed, to_bits, unsigned,
};
use cce_remote::digits::{push_decimal, push_padded, push_signed, unsigned_of};
use cce_remote::double::{Double, Magnitude};
use cce_remote::number::double_of;
use cce_remote::stream::{first_smoothed, smooth, span_ms};

fn chars(s: &str) -> Vec<char> {
    s.chars().collect()
}

fn read(s: &str) -> Option<f64> {
    double_of(&chars(s)).map(machine)
}

fn machine(v: Double) -> f64 {
    f64::from_bits(to_bits(v))
}

fn double(v: f64) -> Double {
    from_bits(v.to_bits())
}

fn size(v: f64) -> Magnitude {
    double(v).magnitude
}

fn back(m: Magnitude) -> f64 {
    machine(Double { negative: false, magnitude: m })
}

fn shown(v: f64, places: u32) -> String {
    let mut out = String::new();
    push_fixed(&mut out, double(v), places);
    out
}

/// The same run of numbers each time.
struct Numbers(u64);

impl Numbers {
    fn next(&mut self) -> u64 {
        self.0 = self.0.wrapping_mul(6364136223846793005).wrapping_add(1442695040888963407);
        let x = self.0;
        (x ^ (x >> 29)).wrapping_mul(0xbf58476d1ce4e5b9) ^ (x >> 17)
    }
}

#[test]
fn texts_are_read_as_the_machine_reads_them() {
    let texts = [
        "0", "-0", "+0", "1", "-1", "+1.5", "0.1", ".5", "5.", "-.25", "1e3", "1E3", "1e+3", "1e-3",
        "123456789012345678901234567890", "0.1e-5", "1e308", "1.7976931348623157e308",
        "1.7976931348623159e308", "1e309", "-1e400", "5e-324", "2.4703282292062327e-324",
        "2.4703282292062328e-324", "4.9e-324", "2.2250738585072014e-308",
        "2.2250738585072011e-308", "1e-400", "1e99999999999999999999999", "1e-99999999999999999999",
        "0e99999999999999999999999", "9007199254740993", "9007199254740992.5", "0.30000000000000004",
        "100000000000000000000000000000000000000000000000000e-50", "00000000000000000000.1",
        "inf", "-inf", "+infinity", "INF", "Infinity", "iNfInItY",
    ];
    for t in texts {
        let std = t.parse::<f64>().unwrap();
        let own = read(t).unwrap_or_else(|| panic!("{t} was not read"));
        assert_eq!(own.to_bits(), std.to_bits(), "{t}");
    }
    for t in ["nan", "NaN", "-nan", "+NAN"] {
        assert!(read(t).unwrap().is_nan(), "{t}");
        assert!(t.parse::<f64>().unwrap().is_nan(), "{t}");
    }
}

#[test]
fn texts_that_are_no_numbers_are_refused() {
    for t in [
        "", "+", "-", ".", "e", "e5", "1e", "1e+", "1e-", "--1", "+-1", "1.2.3", "1 ", " 1", "1x",
        "0x10", "infin", "nanx", "1e1.5", "1_000", "1,5", "\u{0661}", ".e1", "in", "infinityy",
    ] {
        assert!(t.parse::<f64>().is_err(), "{t:?}");
        assert!(read(t).is_none(), "{t:?}");
    }
}

#[test]
fn many_numbers_are_read_as_the_machine_reads_them() {
    let mut r = Numbers(7);
    for _ in 0..400 {
        let v = f64::from_bits(r.next());
        if v.is_finite() {
            let t = format!("{v:e}");
            assert_eq!(read(&t).unwrap().to_bits(), v.to_bits(), "{t}");
        }
        let d = r.next() % 1_000_000_000_000;
        let e = (r.next() % 660) as i64 - 340;
        let t = format!("{}.{:06}e{}", d, r.next() % 1_000_000, e);
        assert_eq!(read(&t).unwrap().to_bits(), t.parse::<f64>().unwrap().to_bits(), "{t}");
    }
}

#[test]
fn fixed_places_are_written_as_the_machine_writes_them() {
    let mut values = vec![
        0.0, -0.0, 0.5, 1.5, 2.5, 0.125, 0.135, 0.375, -0.04, 0.05, 0.15, 0.25, -5.25, 999.995, 1e21,
        1e300, -1e-300, 5e-324, f64::MAX, f64::MIN_POSITIVE, 0.0005, 0.00049999, 123456.789,
    ];
    let mut r = Numbers(11);
    for _ in 0..200 {
        let v = f64::from_bits(r.next());
        if v.is_finite() {
            values.push(v);
        }
        values.push((r.next() % 2_000_000) as f64 / 1000.0 - 1000.0);
        values.push((r.next() % 20_000) as f64 / 16.0);
    }
    for v in values {
        assert_eq!(shown(v, 1), format!("{v:.1}"));
        assert_eq!(shown(v, 2), format!("{v:.2}"));
        assert_eq!(shown(v, 3), format!("{v:.3}"));
    }
}

#[test]
fn conversions_saturate_as_the_machine_does() {
    for v in [
        0.0, -0.0, 0.9, -0.9, 1.0, -1.5, 2147483646.5, 2147483647.0, 2147483648.0, -2147483648.0,
        -2147483648.9, -2147483649.0, 1e300, -1e300, 18446744073709551615.0, 18446744073709549568.0,
        f64::INFINITY, f64::NEG_INFINITY, f64::NAN, 42.7,
    ] {
        assert_eq!(unsigned(double(v)), v as u64, "{v}");
        assert_eq!(signed(double(v)), v as i32, "{v}");
    }
}

#[test]
fn patterns_give_numbers_back() {
    let mut r = Numbers(3);
    for _ in 0..2000 {
        let b = r.next();
        let v = f64::from_bits(b);
        if v.is_nan() {
            assert!(machine(from_bits(b)).is_nan());
        } else {
            assert_eq!(to_bits(from_bits(b)), b);
        }
    }
    for b in [0, 1, 1 << 63, 0x000f_ffff_ffff_ffff, 0x0010_0000_0000_0000, 0x7fef_ffff_ffff_ffff] {
        assert_eq!(to_bits(from_bits(b)), b);
    }
}

#[test]
fn sums_and_products_round_as_the_machine_does() {
    let mut r = Numbers(5);
    let mut pairs: Vec<(f64, f64)> = vec![
        (0.7, 120.0), (0.3, 55.25), (0.0, 1.0), (1e300, 1e300), (5e-324, 0.5), (5e-324, 1.5),
        (f64::MAX, f64::MAX), (f64::INFINITY, 0.0), (f64::INFINITY, 2.0), (1.0, f64::INFINITY),
        (f64::NAN, 1.0), (0.0, f64::INFINITY), (f64::INFINITY, f64::INFINITY),
    ];
    for _ in 0..300 {
        pairs.push((f64::from_bits(r.next()).abs(), f64::from_bits(r.next()).abs()));
        pairs.push(((r.next() % 100_000) as f64 / 7.0, (r.next() % 100_000) as f64 / 3.0));
    }
    for (x, y) in pairs {
        let (p, s) = (back(multiply(size(x), size(y))), back(add_sizes(size(x), size(y))));
        assert!(p.to_bits() == (x * y).to_bits() || (p.is_nan() && (x * y).is_nan()), "{x} * {y}");
        assert!(s.to_bits() == (x + y).to_bits() || (s.is_nan() && (x + y).is_nan()), "{x} + {y}");
    }
}

#[test]
fn comparisons_agree() {
    for v in [
        0.0, -0.0, 89.99999999999999, 90.0, 90.00000000000001, 219.99999999999997, 220.0,
        220.00000000000003, -300.0, f64::INFINITY, f64::NEG_INFINITY, f64::NAN, 1e300,
    ] {
        assert_eq!(is_above(double(v), 220), v > 220.0, "{v}");
        assert_eq!(is_below(double(v), 90), v < 90.0, "{v}");
    }
}

#[test]
fn spans_are_in_milliseconds() {
    let mut r = Numbers(9);
    for i in 0..300u64 {
        let span = Duration::new(r.next() % (1 + i * i), (r.next() % 1_000_000_000) as u32);
        let own = back(span_ms(span.as_secs(), span.subsec_nanos()));
        assert_eq!(own.to_bits(), (span.as_secs_f64() * 1000.0).to_bits(), "{span:?}");
    }
    assert_eq!(back(span_ms(0, 250_000_000)), 250.0);
}

#[test]
fn times_are_smoothed() {
    let mut own = first_smoothed();
    let mut std = 120.0f64;
    assert_eq!(back(own), 120.0);
    for ms in [40.0, 1000.0, 0.125, 333.3333333, 90.0, 0.0, 7.7] {
        own = smooth(own, size(ms));
        std = 0.7 * std + 0.3 * ms;
        assert_eq!(back(own).to_bits(), std.to_bits());
    }
}

#[test]
fn integers_are_written_and_read() {
    let mut out = String::new();
    push_decimal(&mut out, 0);
    push_decimal(&mut out, u64::MAX);
    push_padded(&mut out, 42, 6);
    push_signed(&mut out, i64::from(i32::MIN));
    assert_eq!(out, "018446744073709551615000042-2147483648");
    for (t, n) in [
        ("0", Some(0)), ("+7", Some(7)), ("007", Some(7)), ("4294967295", Some(u32::MAX)),
        ("4294967296", None), ("-1", None), ("-0", None), ("", None), ("+", None), ("1.5", None),
        ("99999999999999999999", None), (" 1", None), ("\u{0661}", None),
    ] {
        assert_eq!(unsigned_of(&chars(t), u32::MAX), n, "{t:?}");
        assert_eq!(t.parse::<u32>().ok(), n, "{t:?}");
    }
    assert_eq!(unsigned_of(&chars("65536"), 65535), None);
}
