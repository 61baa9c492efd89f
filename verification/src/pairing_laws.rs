//! Who is paired, told from the texts themselves.
use vstd::prelude::*;
use vstd::arithmetic::power::pow;
use crate::digits::{
    all_digits, digit_char, lemma_digit_char, lemma_numeral_push, lemma_padded_digits, numeral,
    padded,
};
use crate::pairing::{
    auth_accepts, header_accepts, header_line_accepts, little_endian, parameter_accepts,
    parameters_accept, pin_file_path, pin_in_file, pin_of_entropy, query_accepts, query_of,
};
use crate::text::{Blanks, is_blank, lemma_position, lemma_position_is, lower_all, position};
use crate::word_laws::{
    all_blank, blanks_part_words, every_text_is_its_trimming_in_white_space, lacks, lines_add_up,
    separators_part_fields, solid, solid_text_is_one_word, text_without_a_line_feed_is_one_line,
    trimming_drops_the_white_space_around, whole_lines,
};
use crate::words::{drop_cr, fields, lines, words};

verus! {

// ---- the first frame ----------------------------------------------------------------------------

/// `auth `, white space, the PIN and white space pair, whatever the PIN, as long
/// as it is not empty and has no white space at its ends.
pub proof fn auth_and_the_pin_pair(a: Seq<char>, pin: Seq<char>, b: Seq<char>)
    requires
        all_blank(a),
        all_blank(b),
        solid(pin),
        pin.len() > 0,
    ensures
        auth_accepts("auth "@ + a + pin + b, pin),
{
    let frame = "auth "@ + a + pin + b;
    let n = "auth "@.len() as int;
    assert(frame.take(n) =~= "auth "@);
    assert(frame.skip(n) =~= a + pin + b);
    trimming_drops_the_white_space_around(a, pin, b);
}

/// Nothing else pairs: a frame that does is `auth `, white space, the PIN and
/// white space.
pub proof fn only_auth_and_the_pin_pair(frame: Seq<char>, pin: Seq<char>) -> (r: (
    Seq<char>,
    Seq<char>,
))
    requires
        auth_accepts(frame, pin),
    ensures
        all_blank(r.0),
        all_blank(r.1),
        solid(pin),
        pin.len() > 0,
        frame == "auth "@ + r.0 + pin + r.1,
{
    let n = "auth "@.len() as int;
    let rest = frame.skip(n);
    let (a, b) = every_text_is_its_trimming_in_white_space(rest);
    assert(frame =~= frame.take(n) + rest);
    assert(frame =~= "auth "@ + a + pin + b);
    (a, b)
}

// ---- the header ---------------------------------------------------------------------------------

/// A head carries the PIN if and only if its first lines do or the others do,
/// wherever it is cut: which lines stand beside the one with the PIN, and in
/// what order, makes no difference.
pub proof fn heads_add_up(a: Seq<char>, b: Seq<char>, pin: Seq<char>)
    requires
        whole_lines(a),
    ensures
        header_accepts(a + b, pin) == (header_accepts(a, pin) || header_accepts(b, pin)),
{
    lines_add_up(a, b);
    let (l, k, m) = (lines(a + b), lines(a), lines(b));
    if header_accepts(a + b, pin) {
        let i = choose|i: int| 0 <= i < l.len() && header_line_accepts(#[trigger] l[i], pin);
        if i < k.len() {
            assert(header_line_accepts(k[i], pin));
        } else {
            assert(header_line_accepts(m[i - k.len()], pin));
        }
    }
    if header_accepts(a, pin) {
        let i = choose|i: int| 0 <= i < k.len() && header_line_accepts(#[trigger] k[i], pin);
        assert(l[i] == k[i]);
    }
    if header_accepts(b, pin) {
        let i = choose|i: int| 0 <= i < m.len() && header_line_accepts(#[trigger] m[i], pin);
        assert(l[k.len() + i] == m[i]);
    }
}

/// A line of `X-Pin:`, its letters in any case, and the PIN in white space makes
/// a head carry the PIN, wherever among the lines it stands.
pub proof fn the_pin_is_found_on_any_line(
    before: Seq<char>,
    name: Seq<char>,
    a: Seq<char>,
    pin: Seq<char>,
    b: Seq<char>,
    after: Seq<char>,
)
    requires
        whole_lines(before),
        lower_all(name) == "x-pin:"@,
        all_blank(a),
        all_blank(b),
        lacks(a + pin + b, '\n'),
        solid(pin),
        pin.len() > 0,
    ensures
        header_accepts(before + (name + (a + pin + b) + seq!['\r', '\n']) + after, pin),
{
    let value = a + pin + b;
    let line = name + value;
    let ended = line + seq!['\r', '\n'];
    reveal_strlit("x-pin:");
    assert(lower_all(name).len() == name.len());
    assert(name.len() == 6);
    assert(lacks(line, '\n')) by {
        assert forall|i: int| 0 <= i < line.len() implies #[trigger] line[i] != '\n' by {
            if i < 6 {
                assert(line[i] == name[i]);
                assert(lower_all(name)[i] == "x-pin:"@[i]);
            } else {
                assert(line[i] == value[i - 6]);
            }
        }
    }
    text_without_a_line_feed_is_one_line(line);
    assert(lower_all(line).take(6) =~= lower_all(name));
    assert(line.skip(6) =~= value);
    trimming_drops_the_white_space_around(a, pin, b);
    assert(header_line_accepts(lines(ended)[0], pin));
    assert(header_accepts(ended, pin));
    assert(whole_lines(ended));
    heads_add_up(ended, after, pin);
    heads_add_up(before, ended + after, pin);
    assert(before + (ended + after) =~= before + ended + after);
}

/// The same with a bare line feed after the line, or nothing after it at all.
pub proof fn the_pin_is_found_however_its_line_ends(
    before: Seq<char>,
    name: Seq<char>,
    a: Seq<char>,
    pin: Seq<char>,
    b: Seq<char>,
    after: Seq<char>,
)
    requires
        whole_lines(before),
        lower_all(name) == "x-pin:"@,
        all_blank(a),
        all_blank(b),
        lacks(a + pin + b, '\n'),
        b.len() > 0 ==> b.last() != '\r',
        solid(pin),
        pin.len() > 0,
    ensures
        header_accepts(before + (name + (a + pin + b) + seq!['\n']) + after, pin),
        header_accepts(before + (name + (a + pin + b)), pin),
{
    let value = a + pin + b;
    let line = name + value;
    let ended = line + seq!['\n'];
    reveal_strlit("x-pin:");
    assert(lower_all(name).len() == name.len());
    assert(name.len() == 6);
    assert(lacks(line, '\n')) by {
        assert forall|i: int| 0 <= i < line.len() implies #[trigger] line[i] != '\n' by {
            if i < 6 {
                assert(line[i] == name[i]);
                assert(lower_all(name)[i] == "x-pin:"@[i]);
            } else {
                assert(line[i] == value[i - 6]);
            }
        }
    }
    assert(line.last() != '\r') by {
        if b.len() > 0 {
            assert(line.last() == b.last());
        } else {
            assert(line.last() == pin.last());
            assert(is_blank(Blanks::Unicode, '\r'));
        }
    }
    text_without_a_line_feed_is_one_line(line);
    assert(lower_all(line).take(6) =~= lower_all(name));
    assert(line.skip(6) =~= value);
    trimming_drops_the_white_space_around(a, pin, b);
    assert(header_line_accepts(lines(ended)[0], pin));
    assert(header_accepts(ended, pin));
    assert(header_line_accepts(lines(line)[0], pin));
    assert(header_accepts(line, pin));
    heads_add_up(ended, after, pin);
    heads_add_up(before, ended + after, pin);
    heads_add_up(before, line, pin);
    assert(before + (ended + after) =~= before + ended + after);
}

/// Lines that do not carry the PIN themselves can be put in or left out
/// anywhere.
pub proof fn other_lines_make_no_difference(
    before: Seq<char>,
    extra: Seq<char>,
    after: Seq<char>,
    pin: Seq<char>,
)
    requires
        whole_lines(before),
        whole_lines(extra),
        !header_accepts(extra, pin),
    ensures
        header_accepts(before + extra + after, pin) == header_accepts(before + after, pin),
{
    heads_add_up(extra, after, pin);
    heads_add_up(before, extra + after, pin);
    heads_add_up(before, after, pin);
    assert(before + (extra + after) =~= before + extra + after);
}

/// A line of a text stands in it between whole lines and the end of its line.
proof fn lemma_line_in_text(s: Seq<char>, i: int) -> (r: (Seq<char>, Seq<char>))
    requires
        0 <= i < lines(s).len(),
    ensures
        whole_lines(r.0),
        s == r.0 + lines(s)[i] + r.1,
        r.1.len() == 0 || r.1[0] == '\n' || (r.1.len() > 1 && r.1[0] == '\r' && r.1[1] == '\n'),
    decreases s.len(),
{
    lemma_position(s, '\n');
    let n = position(s, '\n') as int;
    let none = Seq::<char>::empty();
    if n == s.len() {
        assert(s =~= none + s + none);
        (none, none)
    } else {
        let line = s.take(n);
        let rest = s.skip(n + 1);
        assert(s =~= line + seq!['\n'] + rest);
        if i == 0 {
            let kept = drop_cr(line);
            assert(lines(s)[0] == kept);
            if kept.len() < line.len() {
                assert(line =~= kept + seq!['\r']);
                assert(s =~= none + kept + (seq!['\r', '\n'] + rest));
                (none, seq!['\r', '\n'] + rest)
            } else {
                assert(s =~= none + kept + (seq!['\n'] + rest));
                (none, seq!['\n'] + rest)
            }
        } else {
            assert(lines(s)[i] == lines(rest)[i - 1]);
            let (a, b) = lemma_line_in_text(rest, i - 1);
            let before = line + seq!['\n'] + a;
            assert(s =~= before + lines(s)[i] + b);
            if a.len() > 0 {
                assert(before.last() == a.last());
            }
            (before, b)
        }
    }
}

/// A head that carries the PIN has such a line and no other reason: `X-Pin:` in
/// any case, white space, the PIN and white space, from the start of a line to
/// its end.
pub proof fn a_head_that_carries_the_pin_has_its_line(head: Seq<char>, pin: Seq<char>) -> (r: (
    Seq<char>,
    Seq<char>,
    Seq<char>,
    Seq<char>,
    Seq<char>,
))
    requires
        header_accepts(head, pin),
    ensures
        ({
            let (before, name, a, b, after) = r;
            &&& head == before + (name + (a + pin + b)) + after
            &&& whole_lines(before)
            &&& after.len() == 0 || after[0] == '\n' || (after.len() > 1 && after[0] == '\r'
                && after[1] == '\n')
            &&& lower_all(name) == "x-pin:"@
            &&& all_blank(a) && all_blank(b)
            &&& solid(pin) && pin.len() > 0
        }),
{
    let i = choose|i: int|
        0 <= i < lines(head).len() && header_line_accepts(#[trigger] lines(head)[i], pin);
    let line = lines(head)[i];
    let (before, after) = lemma_line_in_text(head, i);
    let n = "x-pin:"@.len() as int;
    let name = line.take(n);
    assert(lower_all(name) =~= lower_all(line).take(n));
    let (a, b) = every_text_is_its_trimming_in_white_space(line.skip(n));
    assert(line =~= name + line.skip(n));
    assert(line =~= name + (a + pin + b));
    (before, name, a, b, after)
}

// ---- the query ----------------------------------------------------------------------------------

/// A query carries the PIN if and only if the parameters before some `&` do, or
/// those after it.
pub proof fn queries_add_up(a: Seq<char>, b: Seq<char>, pin: Seq<char>)
    ensures
        parameters_accept(a + seq!['&'] + b, pin) == (parameters_accept(a, pin)
            || parameters_accept(b, pin)),
{
    separators_part_fields(a, '&', b);
    let (l, k, m) = (fields(a + seq!['&'] + b, '&'), fields(a, '&'), fields(b, '&'));
    if parameters_accept(a + seq!['&'] + b, pin) {
        let i = choose|i: int| 0 <= i < l.len() && parameter_accepts(#[trigger] l[i], pin);
        if i < k.len() {
            assert(parameter_accepts(k[i], pin));
        } else {
            assert(parameter_accepts(m[i - k.len()], pin));
        }
    }
    if parameters_accept(a, pin) {
        let i = choose|i: int| 0 <= i < k.len() && parameter_accepts(#[trigger] k[i], pin);
        assert(l[i] == k[i]);
    }
    if parameters_accept(b, pin) {
        let i = choose|i: int| 0 <= i < m.len() && parameter_accepts(#[trigger] m[i], pin);
        assert(l[k.len() + i] == m[i]);
    }
}

/// A single parameter carries the PIN if and only if it is `pin=` and the PIN,
/// which is not empty.
pub proof fn one_parameter_is_pin_or_not(kv: Seq<char>, pin: Seq<char>)
    requires
        lacks(kv, '&'),
    ensures
        parameters_accept(kv, pin) == (pin.len() > 0 && kv == "pin="@ + pin),
{
    separators_part_fields(kv, '&', Seq::<char>::empty());
    let n = "pin="@.len() as int;
    assert(fields(kv, '&')[0] == kv);
    if parameters_accept(kv, pin) {
        let i = choose|i: int|
            0 <= i < fields(kv, '&').len() && parameter_accepts(#[trigger] fields(kv, '&')[i], pin);
        assert(i == 0);
        assert(kv =~= kv.take(n) + kv.skip(n));
    }
    if pin.len() > 0 && kv == "pin="@ + pin {
        assert(kv.take(n) =~= "pin="@);
        assert(kv.skip(n) =~= pin);
        assert(parameter_accepts(fields(kv, '&')[0], pin));
    }
}

/// Whether `s` holds no white space.
pub open spec fn unspaced(s: Seq<char>) -> bool {
    forall|i: int| 0 <= i < s.len() ==> !is_blank(Blanks::Unicode, #[trigger] s[i])
}

/// What counts of a request is the query of its target: the second word, after
/// its first `?`. Whatever follows the target, headers included, does not.
pub proof fn the_query_of_the_target_counts(
    method: Seq<char>,
    path: Seq<char>,
    query: Seq<char>,
    space: char,
    rest: Seq<char>,
    pin: Seq<char>,
)
    requires
        method.len() > 0,
        unspaced(method),
        unspaced(path),
        unspaced(query),
        lacks(path, '?'),
        is_blank(Blanks::Unicode, space),
    ensures
        query_accepts(
            method + seq![' '] + (path + seq!['?'] + query + seq![space] + rest),
            pin,
        ) == parameters_accept(query, pin),
{
    let target = path + seq!['?'] + query;
    let tail = target + seq![space] + rest;
    let head = method + seq![' '] + tail;
    assert forall|i: int| 0 <= i < target.len() implies !is_blank(
        Blanks::Unicode,
        #[trigger] target[i],
    ) by {
        if i < path.len() {
            assert(target[i] == path[i]);
        } else if i > path.len() {
            assert(target[i] == query[i - path.len() - 1]);
        }
    }
    solid_text_is_one_word(Blanks::Unicode, method);
    solid_text_is_one_word(Blanks::Unicode, target);
    blanks_part_words(Blanks::Unicode, method, ' ', tail);
    blanks_part_words(Blanks::Unicode, target, space, rest);
    assert(words(Blanks::Unicode, head)[1] == target);
    assert forall|i: int| 0 <= i < path.len() implies target[i] != '?' by {
        assert(target[i] == path[i]);
    }
    lemma_position_is(target, '?', path.len() as int);
    assert(target.skip(path.len() as int + 1) =~= query);
    assert(query_of(target) == Some(query));
    assert(path + seq!['?'] + query + seq![space] + rest =~= tail);
}

/// Whatever the head, its second word decides: it carries the PIN if it is a path
/// without `?`, a `?` and a query that carries the PIN, and not otherwise.
pub proof fn the_second_word_decides(head: Seq<char>, path: Seq<char>, query: Seq<char>, pin: Seq<char>)
    requires
        lacks(path, '?'),
    ensures
        words(Blanks::Unicode, head).len() < 2 ==> !query_accepts(head, pin),
        words(Blanks::Unicode, head).len() >= 2 && words(Blanks::Unicode, head)[1] == path + seq![
            '?',
        ] + query ==> query_accepts(head, pin) == parameters_accept(query, pin),
        words(Blanks::Unicode, head).len() >= 2 && words(Blanks::Unicode, head)[1] == path
            ==> !query_accepts(head, pin),
{
    let target = path + seq!['?'] + query;
    assert forall|i: int| 0 <= i < path.len() implies target[i] != '?' by {
        assert(target[i] == path[i]);
    }
    lemma_position_is(target, '?', path.len() as int);
    assert(target.skip(path.len() as int + 1) =~= query);
    lemma_position_is(path, '?', path.len() as int);
}

/// A request whose target has no `?` carries no PIN in a query, whatever
/// follows.
pub proof fn a_target_without_a_query_carries_no_pin(
    method: Seq<char>,
    target: Seq<char>,
    space: char,
    rest: Seq<char>,
    pin: Seq<char>,
)
    requires
        method.len() > 0,
        target.len() > 0,
        unspaced(method),
        unspaced(target),
        lacks(target, '?'),
        is_blank(Blanks::Unicode, space),
    ensures
        !query_accepts(method + seq![' '] + (target + seq![space] + rest), pin),
{
    solid_text_is_one_word(Blanks::Unicode, method);
    solid_text_is_one_word(Blanks::Unicode, target);
    blanks_part_words(Blanks::Unicode, method, ' ', target + seq![space] + rest);
    blanks_part_words(Blanks::Unicode, target, space, rest);
    assert(words(Blanks::Unicode, method + seq![' '] + (target + seq![space] + rest))[1] == target);
    lemma_position_is(target, '?', target.len() as int);
}

// ---- the PIN file -------------------------------------------------------------------------------

/// A PIN file holds what stands in it between white space, if anything does.
pub proof fn a_pin_file_holds_what_is_in_it(a: Seq<char>, pin: Seq<char>, b: Seq<char>)
    requires
        all_blank(a),
        all_blank(b),
        solid(pin),
    ensures
        pin_in_file(a + pin + b) == (if pin.len() > 0 {
            Some(pin)
        } else {
            None
        }),
{
    trimming_drops_the_white_space_around(a, pin, b);
}

/// Padded digits stand for the number, as far as they go.
pub proof fn padded_digits_are_the_number(n: nat, width: nat)
    ensures
        padded(n, width).len() == width,
        all_digits(padded(n, width)),
        numeral(padded(n, width)) == n % (pow(10, width) as nat),
        pow(10, width) > 0,
    decreases width,
{
    lemma_padded_digits(n, width);
    vstd::arithmetic::power::lemma_pow_positive(10, width);
    if width == 0 {
        vstd::arithmetic::power::lemma_pow0(10);
        assert(numeral(padded(n, 0)) == 0);
    } else {
        let w = (width - 1) as nat;
        padded_digits_are_the_number(n / 10, w);
        lemma_digit_char(n % 10);
        lemma_numeral_push(padded(n / 10, w), digit_char(n % 10));
        vstd::arithmetic::power::lemma_pow1(10);
        vstd::arithmetic::power::lemma_pow_adds(10, 1, w);
        let p = pow(10, w);
        vstd::arithmetic::div_mod::lemma_mod_breakdown(n as int, 10, p);
        assert(pow(10, width) == 10 * p);
    }
}

proof fn lemma_million()
    ensures
        pow(10, 6) == 1_000_000,
{
    vstd::arithmetic::power::lemma_pow0(10);
    reveal(pow);
    assert(pow(10, 1) == 10 * pow(10, 0));
    assert(pow(10, 2) == 10 * pow(10, 1));
    assert(pow(10, 3) == 10 * pow(10, 2));
    assert(pow(10, 4) == 10 * pow(10, 3));
    assert(pow(10, 5) == 10 * pow(10, 4));
    assert(pow(10, 6) == 10 * pow(10, 5));
}

/// A fresh PIN is six digits, and they stand for the four bytes as a
/// little-endian number modulo a million.
pub proof fn a_fresh_pin_is_its_bytes_modulo_a_million(bytes: Seq<u8>)
    requires
        bytes.len() == 4,
    ensures
        pin_of_entropy(bytes).len() == 6,
        all_digits(pin_of_entropy(bytes)),
        numeral(pin_of_entropy(bytes)) == (bytes[0] + 256 * (bytes[1] + 256 * (bytes[2] + 256
            * bytes[3]))) % 1_000_000,
{
    let whole = bytes[0] + 256 * (bytes[1] + 256 * (bytes[2] + 256 * bytes[3]));
    assert(little_endian(bytes) == whole);
    let n = little_endian(bytes) % 1_000_000;
    padded_digits_are_the_number(n, 6);
    lemma_million();
    assert(n % 1_000_000 == n);
}

/// The PIN file is `cce/cce-remote.pin` in the configuration directory, which is
/// `XDG_CONFIG_HOME`, whatever `HOME` is, or else `.config` in `HOME`.
pub proof fn the_pin_file_is_in_the_configuration(
    dir: Seq<char>,
    other: Option<Seq<char>>,
)
    requires
        dir.len() > 0,
        dir.last() != '/',
    ensures
        pin_file_path(Some(dir), other) == dir + "/cce/cce-remote.pin"@,
        pin_file_path(None, Some(dir)) == dir + "/.config/cce/cce-remote.pin"@,
        pin_file_path(None, None) == "./.config/cce/cce-remote.pin"@,
{
    reveal_strlit("/");
    reveal_strlit(".");
    reveal_strlit("cce");
    reveal_strlit(".config");
    reveal_strlit("cce-remote.pin");
    reveal_strlit("/cce/cce-remote.pin");
    reveal_strlit("/.config/cce/cce-remote.pin");
    reveal_strlit("./.config/cce/cce-remote.pin");
    let a = dir + "/"@ + "cce"@;
    assert(a.last() == 'e');
    assert(pin_file_path(Some(dir), other) =~= dir + "/cce/cce-remote.pin"@);
    let c = dir + "/"@ + ".config"@;
    assert(c.last() == 'g');
    let d = c + "/"@ + "cce"@;
    assert(d.last() == 'e');
    assert(pin_file_path(None, Some(dir)) =~= dir + "/.config/cce/cce-remote.pin"@);
    let e = "."@ + "/"@ + ".config"@;
    assert("."@.last() == '.');
    assert(e.last() == 'g');
    let f = e + "/"@ + "cce"@;
    assert(f.last() == 'e');
    assert(pin_file_path(None, None) =~= "./.config/cce/cce-remote.pin"@);
}

} // verus!
