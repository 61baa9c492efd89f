//! The pairing PIN: where it is kept, how one is made, and who presents it.
use vstd::prelude::*;
use vstd::slice::slice_subrange;
use vstd::string::StringExecFns;
use crate::digits::{all_digits, lemma_padded_digits, padded, push_padded};
use crate::text::{Blanks, all_chars, begins_with, chars_of, copy_of, is_blank, is_digit, lower_all, lowered_all, position, position_of, same, starts_with, string_of, text_of};
use crate::words::{fields, fields_of, lemma_trim_solid, lines, lines_of, trim, trim_end, trim_start, trimmed, words, words_of};

verus! {

// ---- who is paired ------------------------------------------------------------------------

/// Whether `candidate` is the PIN. An empty PIN is nobody's.
pub open spec fn pin_accepts(candidate: Seq<char>, pin: Seq<char>) -> bool {
    pin.len() > 0 && candidate == pin
}

/// Whether a first frame pairs: `auth `, then the PIN between optional white space.
pub open spec fn auth_accepts(frame: Seq<char>, pin: Seq<char>) -> bool {
    starts_with(frame, "auth "@) && pin_accepts(trim(frame.skip("auth "@.len() as int)), pin)
}

/// Whether a header line is `X-Pin:`, in any case, and the PIN.
pub open spec fn header_line_accepts(line: Seq<char>, pin: Seq<char>) -> bool {
    starts_with(lower_all(line), "x-pin:"@) && pin_accepts(
        trim(line.skip("x-pin:"@.len() as int)),
        pin,
    )
}

/// Whether some line of a request head carries the PIN.
pub open spec fn header_accepts(head: Seq<char>, pin: Seq<char>) -> bool {
    exists|i: int| 0 <= i < lines(head).len() && header_line_accepts(#[trigger] lines(head)[i], pin)
}

/// The query of a request target: what follows its first question mark.
pub open spec fn query_of(target: Seq<char>) -> Option<Seq<char>> {
    let p = position(target, '?') as int;
    if p < target.len() {
        Some(target.skip(p + 1))
    } else {
        None
    }
}

/// Whether a query parameter is `pin=` and the PIN.
pub open spec fn parameter_accepts(kv: Seq<char>, pin: Seq<char>) -> bool {
    starts_with(kv, "pin="@) && pin_accepts(kv.skip("pin="@.len() as int), pin)
}

/// Whether some parameter of a query carries the PIN.
pub open spec fn parameters_accept(query: Seq<char>, pin: Seq<char>) -> bool {
    exists|i: int|
        0 <= i < fields(query, '&').len() && parameter_accepts(
            #[trigger] fields(query, '&')[i],
            pin,
        )
}

/// Whether the query of the request's target, its second word, has a parameter with the PIN.
pub open spec fn query_accepts(head: Seq<char>, pin: Seq<char>) -> bool {
    let w = words(Blanks::Unicode, head);
    w.len() > 1 && match query_of(w[1]) {
        Some(query) => parameters_accept(query, pin),
        None => false,
    }
}

fn chars_match(candidate: &[char], pin: &[char]) -> (r: bool)
    ensures
        r == pin_accepts(candidate@, pin@),
{
    pin.len() > 0 && same(candidate, pin)
}

/// Whether `candidate` is the pairing PIN.
pub fn pin_matches(candidate: &str, pin: &str) -> (r: bool)
    ensures
        r == pin_accepts(candidate@, pin@),
{
    let c = chars_of(candidate);
    let p = chars_of(pin);
    chars_match(c.as_slice(), p.as_slice())
}

/// Whether `frame`, the first of a connection, pairs it.
pub fn auth_frame_ok(frame: &str, pin: &str) -> (r: bool)
    ensures
        r == auth_accepts(frame@, pin@),
{
    let f = chars_of(frame);
    let p = chars_of(pin);
    let prefix = chars_of("auth ");
    if !begins_with(f.as_slice(), "auth ") {
        return false;
    }
    let rest = slice_subrange(f.as_slice(), prefix.len(), f.len());
    assert(rest@ =~= f@.skip("auth "@.len() as int));
    chars_match(trimmed(rest), p.as_slice())
}

fn header_line_ok(line: &[char], pin: &[char]) -> (r: bool)
    ensures
        r == header_line_accepts(line@, pin@),
{
    let low = lowered_all(line);
    if !begins_with(low.as_slice(), "x-pin:") {
        return false;
    }
    let prefix = chars_of("x-pin:");
    assert(low@.len() == line@.len());
    let rest = slice_subrange(line, prefix.len(), line.len());
    assert(rest@ =~= line@.skip("x-pin:"@.len() as int));
    chars_match(trimmed(rest), pin)
}

/// Whether a request head carries the PIN in an `X-Pin` header.
pub fn header_pin_ok(request_head: &str, pin: &str) -> (r: bool)
    ensures
        r == header_accepts(request_head@, pin@),
{
    let h = chars_of(request_head);
    let p = chars_of(pin);
    let ls = lines_of(h.as_slice());
    let ghost l = lines(request_head@);
    assert(l.len() == ls@.len());
    let mut i: usize = 0;
    while i < ls.len()
        invariant
            i <= ls.len(),
            l == lines(request_head@),
            l == all_chars(ls@),
            p@ == pin@,
            forall|j: int| 0 <= j < i ==> !header_line_accepts(#[trigger] l[j], pin@),
        decreases ls.len() - i,
    {
        assert(l[i as int] == ls@[i as int]@);
        if header_line_ok(ls[i].as_slice(), p.as_slice()) {
            return true;
        }
        i += 1;
    }
    false
}

fn parameter_ok(kv: &[char], pin: &[char]) -> (r: bool)
    ensures
        r == parameter_accepts(kv@, pin@),
{
    if !begins_with(kv, "pin=") {
        return false;
    }
    let prefix = chars_of("pin=");
    let rest = slice_subrange(kv, prefix.len(), kv.len());
    assert(rest@ =~= kv@.skip("pin="@.len() as int));
    chars_match(rest, pin)
}

/// Whether a request head carries the PIN as a `pin` parameter of its target.
pub fn query_pin_ok(request_head: &str, pin: &str) -> (r: bool)
    ensures
        r == query_accepts(request_head@, pin@),
{
    let h = chars_of(request_head);
    let p = chars_of(pin);
    let ws = words_of(Blanks::Unicode, h.as_slice());
    let ghost w = words(Blanks::Unicode, request_head@);
    assert(w.len() == ws@.len());
    if ws.len() < 2 {
        return false;
    }
    assert(w[1] == ws@[1]@);
    let target = ws[1].as_slice();
    let k = position_of(target, '?');
    if k == target.len() {
        return false;
    }
    let query = slice_subrange(target, k + 1, target.len());
    assert(query@ =~= target@.skip(k + 1));
    let kvs = fields_of(query, '&');
    let ghost f = fields(query@, '&');
    assert(f.len() == kvs@.len());
    let mut i: usize = 0;
    while i < kvs.len()
        invariant
            i <= kvs.len(),
            words(Blanks::Unicode, request_head@).len() > 1,
            query_of(words(Blanks::Unicode, request_head@)[1]) == Some(query@),
            f == fields(query@, '&'),
            f == all_chars(kvs@),
            p@ == pin@,
            forall|j: int| 0 <= j < i ==> !parameter_accepts(#[trigger] f[j], pin@),
        decreases kvs.len() - i,
    {
        assert(f[i as int] == kvs@[i as int]@);
        if parameter_ok(kvs[i].as_slice(), p.as_slice()) {
            assert(parameters_accept(query@, pin@));
            return true;
        }
        i += 1;
    }
    false
}

// ---- the PIN file ----------------------------------------------------------------------------

/// The PIN that a PIN file's text holds: the text without the white space around it.
pub open spec fn pin_in_file(text: Seq<char>) -> Option<Seq<char>> {
    if trim(text).len() > 0 {
        Some(trim(text))
    } else {
        None
    }
}

/// The number that four bytes stand for, the lowest first.
pub open spec fn little_endian(bytes: Seq<u8>) -> nat {
    bytes[0] as nat + 0x100 * bytes[1] as nat + 0x1_0000 * bytes[2] as nat + 0x100_0000
        * bytes[3] as nat
}

/// The PIN made of four random bytes: six digits.
pub open spec fn pin_of_entropy(bytes: Seq<u8>) -> Seq<char> {
    padded(little_endian(bytes) % 1_000_000, 6)
}

/// The text of a PIN file.
pub open spec fn pin_file(pin: Seq<char>) -> Seq<char> {
    pin + "\n"@
}

/// `base` and `name` as one path.
pub open spec fn path_join(base: Seq<char>, name: Seq<char>) -> Seq<char> {
    if base.len() == 0 {
        name
    } else if base.last() == '/' {
        base + name
    } else {
        base + "/"@ + name
    }
}

/// The configuration directory: `XDG_CONFIG_HOME`, or `.config` in `HOME`, or
/// in the working directory where neither is set.
pub open spec fn config_base(xdg: Option<Seq<char>>, home: Option<Seq<char>>) -> Seq<char> {
    match (xdg, home) {
        (Some(dir), _) => dir,
        (None, Some(dir)) => path_join(dir, ".config"@),
        (None, None) => path_join("."@, ".config"@),
    }
}

/// The file that the PIN is kept in.
pub open spec fn pin_file_path(xdg: Option<Seq<char>>, home: Option<Seq<char>>) -> Seq<char> {
    path_join(path_join(config_base(xdg, home), "cce"@), "cce-remote.pin"@)
}

/// The PIN that the text of a PIN file holds, if any.
pub fn stored_pin(text: &str) -> (r: Option<String>)
    ensures
        match r {
            Some(pin) => pin_in_file(text@) == Some(pin@),
            None => pin_in_file(text@) is None,
        },
{
    let c = chars_of(text);
    let t = trimmed(c.as_slice());
    if t.len() > 0 {
        Some(string_of(t))
    } else {
        None
    }
}

/// A new PIN made of four random bytes.
pub fn fresh_pin(bytes: [u8; 4]) -> (r: String)
    ensures
        r@ == pin_of_entropy(bytes@),
{
    let n: u64 = bytes[0] as u64 + 0x100 * bytes[1] as u64 + 0x1_0000 * bytes[2] as u64
        + 0x100_0000 * bytes[3] as u64;
    let mut out = String::new();
    push_padded(&mut out, n % 1_000_000, 6);
    assert(out@ =~= pin_of_entropy(bytes@));
    out
}

/// The text to write to the PIN file.
pub fn pin_file_text(pin: &str) -> (r: String)
    ensures
        r@ == pin_file(pin@),
{
    let mut out = copy_of(pin);
    out.append("\n");
    out
}

fn join_path(base: &str, name: &str) -> (r: String)
    ensures
        r@ == path_join(base@, name@),
{
    let b = chars_of(base);
    let mut out = copy_of(base);
    if b.len() > 0 && b[b.len() - 1] != '/' {
        out.append("/");
    }
    out.append(name);
    assert(out@ =~= path_join(base@, name@));
    out
}

/// Where the PIN is kept, by the values of `XDG_CONFIG_HOME` and `HOME`.
pub fn pin_path(xdg: Option<&str>, home: Option<&str>) -> (r: String)
    ensures
        r@ == pin_file_path(text_of(xdg), text_of(home)),
{
    let base = match xdg {
        Some(dir) => copy_of(dir),
        None => match home {
            Some(dir) => join_path(dir, ".config"),
            None => join_path(".", ".config"),
        },
    };
    let dir = join_path(base.as_str(), "cce");
    join_path(dir.as_str(), "cce-remote.pin")
}

// ---- laws ---------------------------------------------------------------------------------------

/// An empty PIN authorizes nothing: no frame, header or query is accepted.
pub proof fn an_empty_pin_is_nobodys(input: Seq<char>)
    ensures
        !auth_accepts(input, seq![]),
        !header_accepts(input, seq![]),
        !query_accepts(input, seq![]),
{
}

/// Only the very PIN pairs: whatever is accepted by one PIN is refused by every other one.
pub proof fn one_frame_pairs_with_one_pin(frame: Seq<char>, pin: Seq<char>, other: Seq<char>)
    requires
        auth_accepts(frame, pin),
        other != pin,
    ensures
        !auth_accepts(frame, other),
{
}

/// A PIN without white space at its ends pairs by `auth ` and itself.
pub proof fn the_pin_pairs(pin: Seq<char>)
    requires
        pin.len() > 0,
        !is_blank(Blanks::Unicode, pin[0]),
        !is_blank(Blanks::Unicode, pin.last()),
    ensures
        auth_accepts("auth "@ + pin, pin),
{
    let frame = "auth "@ + pin;
    assert(frame.take("auth "@.len() as int) =~= "auth "@);
    assert(frame.skip("auth "@.len() as int) =~= pin);
    lemma_trim_solid(pin);
}

/// A new PIN is six digits.
pub proof fn a_fresh_pin_is_six_digits(bytes: Seq<u8>)
    ensures
        pin_of_entropy(bytes).len() == 6,
        all_digits(pin_of_entropy(bytes)),
{
    lemma_padded_digits(little_endian(bytes) % 1_000_000, 6);
}

/// A new PIN persists: it is read back from the file it was written to, and
/// pairs.
pub proof fn a_fresh_pin_persists(bytes: Seq<u8>)
    ensures
        pin_in_file(pin_file(pin_of_entropy(bytes))) == Some(pin_of_entropy(bytes)),
        auth_accepts("auth "@ + pin_of_entropy(bytes), pin_of_entropy(bytes)),
{
    let pin = pin_of_entropy(bytes);
    a_fresh_pin_is_six_digits(bytes);
    assert(is_digit(pin[0]) && is_digit(pin[5]));
    reveal_strlit("\n");
    let text = pin_file(pin);
    assert(text =~= pin.push('\n'));
    assert(text[0] == pin[0]);
    assert(trim_start(text) == text);
    assert(text.last() == '\n');
    assert(text.drop_last() =~= pin);
    assert(trim_end(text) == trim_end(pin));
    assert(trim_end(pin) == pin);
    the_pin_pairs(pin);
}

} // verus!
