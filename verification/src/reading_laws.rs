//! What numbers texts are read as.
use vstd::prelude::*;
use vstd::arithmetic::power::{lemma_pow0, lemma_pow_positive, pow};
use vstd::arithmetic::power2::{lemma2_to64, lemma2_to64_rest, lemma_pow2_pos, pow2};
use crate::digits::{all_digits, numeral};
use crate::double::{Double, Magnitude, nearest};
use crate::number::{decimal_parts, parse_double, parse_exponent, parse_scientific, ratio};
use crate::number_laws::{near, the_nearest_double_is_near, units_in};
use crate::text::{is_digit, lemma_position, lemma_position_is, lower, lower_all, position};

verus! {

/// Whether `v` is a double nearest to `n` tenths to the `places`: to one part in
/// 2^53, or half of the smallest double.
pub open spec fn reads(v: Double, n: nat, places: nat) -> bool {
    &&& !(v.magnitude is NotANumber)
    &&& v.finite() ==> near(
        pow2(53) * (units_in(v.magnitude) * pow(10, places)),
        pow2(53) * (n * pow2(1074)) as int,
        n * pow2(1074) + pow2(52) * pow(10, places),
    )
    &&& n < pow2(1023) * pow(10, places) ==> v.finite()
}

/// Digits, a point and digits are read as the number they stand for.
pub proof fn decimals_are_read_to_the_nearest(whole: Seq<char>, fraction: Seq<char>)
    requires
        all_digits(whole),
        all_digits(fraction),
        whole.len() + fraction.len() > 0,
    ensures
        ({
            let r = parse_double(whole + seq!['.'] + fraction);
            r is Some && !r->0.negative && reads(
                r->0,
                numeral(whole + fraction),
                fraction.len(),
            )
        }),
        whole.len() > 0 ==> ({
            let r = parse_double(whole);
            r is Some && !r->0.negative && reads(r->0, numeral(whole), 0)
        }),
{
    let none = Seq::<char>::empty();
    lemma_unsigned_text(whole + seq!['.'] + fraction);
    lemma_parts(whole, fraction);
    lemma_rounds(numeral(whole + fraction), fraction.len());
    if whole.len() > 0 {
        lemma_unsigned_text(whole);
        lemma_whole(whole);
        lemma_rounds(numeral(whole), 0);
    }
}

/// Whether every character is a digit or a point.
spec fn plain(s: Seq<char>) -> bool {
    forall|i: int| 0 <= i < s.len() ==> is_digit(#[trigger] s[i]) || s[i] == '.'
}

/// Text of digits and points is read as it stands.
proof fn lemma_unsigned_text(s: Seq<char>)
    requires
        s.len() > 0,
        plain(s) || (exists|w: Seq<char>, f: Seq<char>|
            all_digits(w) && all_digits(f) && s == #[trigger] (w + seq!['.'] + f)) || all_digits(s),
    ensures
        parse_double(s) == (match parse_scientific(s) {
            Some((digits, exponent)) => Some(
                Double {
                    negative: false,
                    magnitude: nearest(ratio(digits, exponent).0, ratio(digits, exponent).1),
                },
            ),
            None => None,
        }),
{
    assert(plain(s)) by {
        if !plain(s) {
            if all_digits(s) {
                assert forall|i: int| 0 <= i < s.len() implies is_digit(#[trigger] s[i]) || s[i]
                    == '.' by {}
            } else {
                let (w, f) = choose|w: Seq<char>, f: Seq<char>|
                    all_digits(w) && all_digits(f) && s == #[trigger] (w + seq!['.'] + f);
                assert forall|i: int| 0 <= i < s.len() implies is_digit(#[trigger] s[i]) || s[i]
                    == '.' by {
                    if i < w.len() {
                        assert(s[i] == w[i]);
                    } else if i > w.len() {
                        assert(s[i] == f[i - w.len() - 1]);
                    }
                }
            }
        }
    }
    assert(lower_all(s) =~= s) by {
        assert forall|i: int| 0 <= i < s.len() implies #[trigger] lower_all(s)[i] == s[i] by {
            assert(is_digit(s[i]) || s[i] == '.');
        }
    }
    assert(is_digit(s[0]) || s[0] == '.');
    reveal_strlit("inf");
    reveal_strlit("infinity");
    reveal_strlit("nan");
    assert("inf"@[0] == 'i' && "infinity"@[0] == 'i' && "nan"@[0] == 'n');
}

proof fn lemma_parts(w: Seq<char>, f: Seq<char>)
    requires
        all_digits(w),
        all_digits(f),
        w.len() + f.len() > 0,
    ensures
        parse_scientific(w + seq!['.'] + f) == Some((numeral(w + f), -(f.len() as int))),
{
    let s = w + seq!['.'] + f;
    assert forall|i: int| 0 <= i < s.len() implies s[i] != 'e' by {
        if i < w.len() {
            assert(is_digit(w[i]));
        } else if i > w.len() {
            assert(is_digit(f[i - w.len() - 1]));
        }
    }
    lemma_position_is(s, 'e', s.len() as int);
    assert(s.take(s.len() as int) =~= s);
    assert forall|i: int| 0 <= i < w.len() implies s[i] != '.' by {
        assert(is_digit(w[i]));
        assert(s[i] == w[i]);
    }
    lemma_position_is(s, '.', w.len() as int);
    assert(s.take(w.len() as int) =~= w);
    assert(s.skip(w.len() as int + 1) =~= f);
}

proof fn lemma_whole(w: Seq<char>)
    requires
        all_digits(w),
        w.len() > 0,
    ensures
        parse_scientific(w) == Some((numeral(w), 0int)),
{
    assert forall|i: int| 0 <= i < w.len() implies w[i] != 'e' && w[i] != '.' by {
        assert(is_digit(w[i]));
    }
    lemma_position_is(w, 'e', w.len() as int);
    lemma_position_is(w, '.', w.len() as int);
    assert(w.take(w.len() as int) =~= w);
    assert(w + Seq::<char>::empty() =~= w);
}

proof fn lemma_rounds(n: nat, places: nat)
    ensures
        ({
            let (a, d) = ratio(n, -(places as int));
            reads(Double { negative: false, magnitude: nearest(a, d) }, n, places)
        }),
{
    lemma_pow_positive(10, places);
    lemma_pow0(10);
    let (a, d) = ratio(n, -(places as int));
    assert(d == pow(10, places));
    assert(a == n) by {
        if places == 0 {
            assert(n * 1 == n);
        }
    }
    the_nearest_double_is_near(n, d);
}

/// A minus sign makes a number negative and changes nothing else, and a plus
/// sign changes nothing.
pub proof fn signs_are_read_as_signs(s: Seq<char>)
    requires
        s.len() > 0 ==> s[0] != '-' && s[0] != '+',
    ensures
        parse_double(seq!['+'] + s) == parse_double(s),
        parse_double(seq!['-'] + s) == (match parse_double(s) {
            Some(v) => Some(Double { negative: true, magnitude: v.magnitude }),
            None => None,
        }),
        parse_double(s) is Some ==> !parse_double(s)->0.negative,
{
    let (p, m) = (seq!['+'] + s, seq!['-'] + s);
    assert(lower_all(p).drop_first() =~= lower_all(s));
    assert(lower_all(m).drop_first() =~= lower_all(s));
    assert(lower_all(p)[0] == '+');
    assert(lower_all(m)[0] == '-');
    if s.len() > 0 {
        assert(lower_all(s)[0] == lower(s[0]));
    }
}

/// `0` is read as zero, without a sign.
pub proof fn zero_is_read_as_zero()
    ensures
        parse_double("0"@) is Some,
        parse_double("0"@)->0.finite(),
        !parse_double("0"@)->0.negative,
        parse_double("0"@)->0.units() == 0,
{
    reveal_strlit("0");
    lemma2_to64();
    lemma2_to64_rest();
    lemma_pow0(10);
    lemma_pow2_pos(1023);
    let z = "0"@;
    assert(is_digit(z[0]));
    assert(all_digits(z));
    decimals_are_read_to_the_nearest(z, Seq::<char>::empty());
    assert(numeral(z) == 0) by {
        assert(z.drop_last() =~= Seq::<char>::empty());
        assert(z.last() == '0');
        assert(numeral(Seq::<char>::empty()) == 0);
    }
    let v = parse_double(z)->0;
    assert(0 * pow2(1074) == 0);
    let u = units_in(v.magnitude) as int;
    assert(u * pow(10, 0) == u) by (nonlinear_arith)
        requires
            pow(10, 0) == 1,
    ;
}

// ---- exponents ----------------------------------------------------------------------------------

/// Digits with a point, `e` and an exponent with its sign are read as the number
/// scaled by that power of ten: the double nearest to it.
pub proof fn exponents_scale_by_powers_of_ten(
    whole: Seq<char>,
    fraction: Seq<char>,
    exponent: Seq<char>,
    sign: Seq<char>,
)
    requires
        all_digits(whole),
        all_digits(fraction),
        whole.len() + fraction.len() > 0,
        all_digits(exponent),
        exponent.len() > 0,
        sign == seq!['-'] || sign == seq!['+'] || sign == Seq::<char>::empty(),
    ensures
        ({
            let r = parse_double(whole + seq!['.'] + fraction + (seq!['e'] + sign + exponent));
            let x = (if sign == seq!['-'] {
                -(numeral(exponent) as int)
            } else {
                numeral(exponent) as int
            }) - fraction.len();
            let n = numeral(whole + fraction);
            &&& r is Some
            &&& !r->0.negative
            &&& x >= 0 ==> reads(r->0, (n * pow(10, x as nat)) as nat, 0)
            &&& x < 0 ==> reads(r->0, n, (-x) as nat)
        }),
{
    let m = whole + seq!['.'] + fraction;
    let tail = sign + exponent;
    let s = m + (seq!['e'] + sign + exponent);
    assert(s =~= m + seq!['e'] + tail);
    assert forall|i: int| 0 <= i < m.len() implies s[i] != 'e' by {
        assert(s[i] == m[i]);
        if i < whole.len() {
            assert(is_digit(whole[i]));
            assert(m[i] == whole[i]);
        } else if i > whole.len() {
            assert(is_digit(fraction[i - whole.len() - 1]));
            assert(m[i] == fraction[i - whole.len() - 1]);
        }
    }
    assert(s[m.len() as int] == 'e');
    lemma_position_is(s, 'e', m.len() as int);
    assert(s.take(m.len() as int) =~= m);
    assert(s.skip(m.len() as int + 1) =~= tail);
    lemma_parts(whole, fraction);
    assert(m.take(m.len() as int) =~= m);
    lemma_point(whole, fraction);
    lemma_exponent(sign, exponent);
    lemma_lowered(whole, fraction, sign, exponent);
    assert(s.len() > 0);
    assert(s[0] == m[0]);
    if whole.len() > 0 {
        assert(is_digit(whole[0]));
        assert(m[0] == whole[0]);
    } else {
        assert(m[0] == '.');
    }
    reveal_strlit("inf");
    reveal_strlit("infinity");
    reveal_strlit("nan");
    assert("inf"@[0] == 'i' && "infinity"@[0] == 'i' && "nan"@[0] == 'n');
    let n = numeral(whole + fraction);
    let e = if sign == seq!['-'] {
        -(numeral(exponent) as int)
    } else {
        numeral(exponent) as int
    };
    let x = e - fraction.len();
    assert(parse_scientific(s) == Some((n, x)));
    if x >= 0 {
        lemma_pow_positive(10, x as nat);
        let big = n * pow(10, x as nat);
        assert(big >= 0) by (nonlinear_arith)
            requires
                big == n * pow(10, x as nat),
                pow(10, x as nat) > 0,
                n >= 0,
        ;
        lemma_pow0(10);
        the_nearest_double_is_near(big as nat, 1);
        assert(n * (pow(10, x as nat) as nat) == big);
    } else {
        lemma_rounds(n, (-x) as nat);
    }
}

proof fn lemma_point(w: Seq<char>, f: Seq<char>)
    requires
        all_digits(w),
    ensures
        decimal_parts(w + seq!['.'] + f) == (w, f),
{
    let s = w + seq!['.'] + f;
    assert forall|i: int| 0 <= i < w.len() implies s[i] != '.' by {
        assert(is_digit(w[i]));
        assert(s[i] == w[i]);
    }
    lemma_position_is(s, '.', w.len() as int);
    assert(s.take(w.len() as int) =~= w);
    assert(s.skip(w.len() as int + 1) =~= f);
}

proof fn lemma_exponent(sign: Seq<char>, d: Seq<char>)
    requires
        all_digits(d),
        d.len() > 0,
        sign == seq!['-'] || sign == seq!['+'] || sign == Seq::<char>::empty(),
    ensures
        parse_exponent(sign + d) == Some(
            if sign == seq!['-'] {
                -(numeral(d) as int)
            } else {
                numeral(d) as int
            },
        ),
{
    let s = sign + d;
    if sign.len() == 0 {
        assert(s =~= d);
        assert(is_digit(d[0]));
        assert(sign != seq!['-']) by {
            assert(seq!['-'].len() == 1);
        }
    } else {
        assert(s[0] == sign[0]);
        assert(s.drop_first() =~= d);
        if sign == seq!['+'] {
            assert(sign[0] == '+');
            assert(seq!['-'][0] == '-');
        }
    }
}

proof fn lemma_lowered(w: Seq<char>, f: Seq<char>, sign: Seq<char>, d: Seq<char>)
    requires
        all_digits(w),
        all_digits(f),
        all_digits(d),
        sign == seq!['-'] || sign == seq!['+'] || sign == Seq::<char>::empty(),
    ensures
        ({
            let s = w + seq!['.'] + f + (seq!['e'] + sign + d);
            lower_all(s) == s
        }),
{
    let s = w + seq!['.'] + f + (seq!['e'] + sign + d);
    assert forall|i: int| 0 <= i < s.len() implies #[trigger] lower_all(s)[i] == s[i] by {
        let a = w.len() as int;
        let b = a + 1 + f.len();
        let c = b + 1 + sign.len();
        if i < a {
            assert(is_digit(w[i]));
            assert(s[i] == w[i]);
        } else if a < i < b {
            assert(is_digit(f[i - a - 1]));
            assert(s[i] == f[i - a - 1]);
        } else if b < i < c {
            assert(s[i] == sign[i - b - 1]);
        } else if i >= c {
            assert(is_digit(d[i - c]));
            assert(s[i] == d[i - c]);
        }
    }
    assert(lower_all(s) =~= s);
}

// ---- what is no number --------------------------------------------------------------------------

/// The names of infinity and of what is no number are read in any case.
pub proof fn names_are_read_in_any_case(s: Seq<char>)
    ensures
        lower_all(s) == "inf"@ || lower_all(s) == "infinity"@ ==> parse_double(s) == Some(
            Double { negative: false, magnitude: Magnitude::Infinite },
        ),
        lower_all(s) == "nan"@ ==> parse_double(s) == Some(
            Double { negative: false, magnitude: Magnitude::NotANumber },
        ),
{
    reveal_strlit("inf");
    reveal_strlit("infinity");
    reveal_strlit("nan");
    assert("inf"@[0] == 'i' && "infinity"@[0] == 'i' && "nan"@[0] == 'n');
    assert("inf"@.len() == 3 && "nan"@.len() == 3);
}

/// A text with a character that no number has, and that is no such name behind
/// its sign, is not read; nor is the empty text.
pub proof fn other_characters_make_no_number(s: Seq<char>, i: int)
    requires
        s.len() == 0 || (0 <= i < s.len() && !is_digit(s[i]) && s[i] != '.' && s[i] != 'e' && s[i]
            != 'E' && s[i] != '+' && s[i] != '-'),
        ({
            let t = lower_all(if s.len() > 0 && (s[0] == '+' || s[0] == '-') {
                s.drop_first()
            } else {
                s
            });
            t != "inf"@ && t != "infinity"@ && t != "nan"@
        }),
    ensures
        parse_double(s) is None,
{
    let t = lower_all(s);
    let body = if t.len() > 0 && (t[0] == '-' || t[0] == '+') {
        t.drop_first()
    } else {
        t
    };
    if s.len() > 0 {
        assert(t[0] == lower(s[0]));
        assert(lower_all(s.drop_first()) =~= t.drop_first());
        let j = i - (s.len() - body.len());
        if t.len() != body.len() {
            assert(i != 0);
        }
        assert(body[j] == t[i]);
        lemma_stray(body, j);
    } else {
        lemma_empty();
        assert(body =~= Seq::<char>::empty());
    }
}

proof fn lemma_empty()
    ensures
        parse_scientific(Seq::<char>::empty()) is None,
{
    let s = Seq::<char>::empty();
    assert(s.take(0) =~= s);
    assert(decimal_parts(s.take(0)).0.len() == 0);
}

/// A stray character leaves no place for itself.
proof fn lemma_stray(s: Seq<char>, j: int)
    requires
        0 <= j < s.len(),
        !is_digit(s[j]),
        s[j] != '.' && s[j] != 'e' && s[j] != '+' && s[j] != '-',
    ensures
        parse_scientific(s) is None,
{
    lemma_position(s, 'e');
    let p = position(s, 'e') as int;
    let m = s.take(p);
    lemma_position(m, '.');
    let q = position(m, '.') as int;
    let (whole, fraction) = decimal_parts(m);
    if j < q {
        assert(whole[j] == s[j]);
    } else if j < p {
        assert(j != q) by {
            assert(m[j] == s[j]);
        }
        assert(fraction[j - q - 1] == s[j]);
    } else {
        assert(j != p);
        let tail = s.skip(p + 1);
        let k = j - p - 1;
        assert(tail[k] == s[j]);
        if tail.len() > 0 && (tail[0] == '-' || tail[0] == '+') {
            assert(k != 0);
            assert(tail.drop_first()[k - 1] == s[j]);
        }
    }
}

proof fn lemma_misplaced(s: Seq<char>, j: int)
    requires
        0 <= j < s.len(),
        s[j] == '+' || s[j] == '-',
        j == 0 || s[j - 1] != 'e',
    ensures
        parse_scientific(s) is None,
{
    lemma_position(s, 'e');
    let p = position(s, 'e') as int;
    let m = s.take(p);
    lemma_position(m, '.');
    let q = position(m, '.') as int;
    let (whole, fraction) = decimal_parts(m);
    if j < q {
        assert(whole[j] == s[j]);
    } else if j < p {
        assert(m[j] == s[j]);
        assert(fraction[j - q - 1] == s[j]);
    } else {
        assert(j != p);
        let tail = s.skip(p + 1);
        let k = j - p - 1;
        assert(tail[k] == s[j]);
        assert(k > 0);
        if tail[0] == '-' || tail[0] == '+' {
            assert(tail.drop_first()[k - 1] == s[j]);
        }
    }
}

proof fn lemma_repeated(s: Seq<char>, i: int, j: int)
    requires
        0 <= i < j < s.len(),
        s[i] == '.' || s[i] == 'e',
        s[j] == '.' || (s[i] == 'e' && s[j] == 'e'),
    ensures
        parse_scientific(s) is None,
{
    lemma_position(s, 'e');
    let p = position(s, 'e') as int;
    let m = s.take(p);
    lemma_position(m, '.');
    let q = position(m, '.') as int;
    let (whole, fraction) = decimal_parts(m);
    if j < p {
        assert(m[i] == s[i] && m[j] == s[j]);
        assert(q < j);
        assert(fraction[j - q - 1] == s[j]);
    } else {
        let tail = s.skip(p + 1);
        let k = j - p - 1;
        assert(j != p);
        assert(tail[k] == s[j]);
        if tail[0] == '-' || tail[0] == '+' {
            assert(k > 0);
            assert(tail.drop_first()[k - 1] == s[j]);
        }
    }
}

/// Whether a character is an exponent's letter.
pub open spec fn is_e(c: char) -> bool {
    c == 'e' || c == 'E'
}

/// A sign that stands neither in front nor behind an exponent's letter, a second
/// point, a second exponent and a point in an exponent all make a text no number.
pub proof fn misplaced_characters_make_no_number(s: Seq<char>, i: int, j: int)
    requires
        0 <= i < j < s.len(),
        ((s[j] == '+' || s[j] == '-') && i == j - 1 && !is_e(s[i])) || (s[j] == '.' && (s[i] == '.'
            || is_e(s[i]))) || (is_e(s[j]) && is_e(s[i])),
    ensures
        parse_double(s) is None,
{
    let t = lower_all(s);
    let signed = t[0] == '-' || t[0] == '+';
    let body = if signed {
        t.drop_first()
    } else {
        t
    };
    let off: int = if signed {
        1
    } else {
        0
    };
    assert(t[0] == lower(s[0]));
    assert(t[i] == lower(s[i]) && t[j] == lower(s[j]));
    assert(body[j - off] == t[j]);
    if i >= off {
        assert(body[i - off] == t[i]);
    }
    if s[j] == '+' || s[j] == '-' {
        lemma_misplaced(body, j - off);
    } else {
        assert(i >= off);
        lemma_repeated(body, i - off, j - off);
    }
    reveal_strlit("inf");
    reveal_strlit("infinity");
    reveal_strlit("nan");
    let k = j - off;
    if body == "inf"@ {
        assert(k == 0 || k == 1 || k == 2);
    }
    if body == "infinity"@ {
        assert(k == 0 || k == 1 || k == 2 || k == 3 || k == 4 || k == 5 || k == 6 || k == 7);
    }
    if body == "nan"@ {
        assert(k == 0 || k == 1 || k == 2);
    }
}

proof fn lemma_open_end(s: Seq<char>)
    requires
        s.len() > 0 ==> s.last() == 'e' || s.last() == '+' || s.last() == '-',
    ensures
        parse_scientific(s) is None,
{
    if s.len() == 0 {
        lemma_empty();
        assert(s =~= Seq::<char>::empty());
    } else if s.last() != 'e' && (s.len() == 1 || s[s.len() - 2] != 'e') {
        lemma_misplaced(s, s.len() - 1);
    } else {
        lemma_position(s, 'e');
        let p = position(s, 'e') as int;
        assert(p < s.len());
        let tail = s.skip(p + 1);
        if tail.len() > 0 {
            assert(tail.last() == s.last());
            if tail[0] == '-' || tail[0] == '+' {
                if tail.len() > 1 {
                    assert(tail.drop_first().last() == s.last());
                    assert(tail.drop_first()[tail.len() - 2] == s.last());
                }
            } else {
                assert(tail[tail.len() - 1] == s.last());
            }
        }
    }
}

proof fn lemma_digitless(s: Seq<char>)
    requires
        forall|i: int| 0 <= i < s.len() ==> !is_digit(#[trigger] s[i]),
    ensures
        parse_scientific(s) is None,
{
    lemma_position(s, 'e');
    let p = position(s, 'e') as int;
    let m = s.take(p);
    lemma_position(m, '.');
    let q = position(m, '.') as int;
    let (whole, fraction) = decimal_parts(m);
    if whole.len() > 0 {
        assert(whole[0] == s[0]);
    } else if fraction.len() > 0 {
        assert(fraction[0] == s[q + 1]);
    }
}

/// A text that ends in an exponent's letter or a sign is no number, nor is one
/// without a digit, names aside.
pub proof fn a_number_needs_its_digits(s: Seq<char>)
    requires
        (s.len() > 0 && (is_e(s.last()) || s.last() == '+' || s.last() == '-')) || (forall|i: int|
            0 <= i < s.len() ==> !is_digit(#[trigger] s[i])),
        ({
            let t = lower_all(if s.len() > 0 && (s[0] == '+' || s[0] == '-') {
                s.drop_first()
            } else {
                s
            });
            t != "inf"@ && t != "infinity"@ && t != "nan"@
        }),
    ensures
        parse_double(s) is None,
{
    let t = lower_all(s);
    let body = if t.len() > 0 && (t[0] == '-' || t[0] == '+') {
        t.drop_first()
    } else {
        t
    };
    if s.len() > 0 {
        assert(t[0] == lower(s[0]));
        assert(lower_all(s.drop_first()) =~= t.drop_first());
        assert(t.last() == lower(s.last()));
    }
    if forall|i: int| 0 <= i < s.len() ==> !is_digit(#[trigger] s[i]) {
        assert forall|i: int| 0 <= i < body.len() implies !is_digit(#[trigger] body[i]) by {
            let j = i + (t.len() - body.len());
            assert(body[i] == t[j]);
            assert(t[j] == lower(s[j]));
        }
        lemma_digitless(body);
    } else {
        if body.len() > 0 {
            assert(body.last() == t.last());
        }
        lemma_open_end(body);
    }
}

} // verus!
