//! From the page's input frames to the compositor's control commands.
//!
//! A frame is one event, its words separated by ASCII white space:
//!
//! - `m <dx> <dy>`: move the pointer by that much
//! - `s <dy> [<dx>]`: scroll
//! - `b <left|right|middle> <down|up|click>`: a pointer button
//! - `k <code>`, `kd <code>`, `ku <code>`: tap, hold or release a key
//! - `wf <window>`: focus a window
//! - `tap <x> <y>`, `tapr <x> <y>`: move the pointer there and click
//! - `cmd restart-compositor`: the one command with a name
//!
//! A frame of any other form means nothing and is dropped. Every command is
//! built anew from what was read, so no text of a frame but a window name made
//! of safe characters ever reaches the compositor.
use vstd::prelude::*;
use vstd::string::StringExecFns;
use crate::arith::{fixed, push_fixed};
use crate::digits::{decimal, parse_unsigned, push_decimal, unsigned_of};
use crate::double::{Double, Magnitude};
use crate::number::{double_of, parse_double};
use crate::text::{Blanks, all_chars, all_texts, chars_of, copy_of, digit, is_alphanumeric, is_text, push_chars};
use crate::words::{words, words_of};

verus! {

// ---- what a frame means ---------------------------------------------------------------

/// The number, where it is finite.
pub open spec fn keep_finite(v: Double) -> Option<Double> {
    if v.finite() {
        Some(v)
    } else {
        None
    }
}

/// A finite number read from a word.
pub open spec fn coordinate(word: Seq<char>) -> Option<Double> {
    match parse_double(word) {
        Some(v) => keep_finite(v),
        None => None,
    }
}

pub open spec fn is_safe_char(c: char) -> bool {
    is_alphanumeric(c) || c == '.' || c == '_' || c == '-' || c == ':'
}

/// A window name that may stand in a command: 1 to 128 safe characters.
pub open spec fn is_safe_token(t: Seq<char>) -> bool {
    &&& 1 <= t.len() <= 128
    &&& forall|i: int| 0 <= i < t.len() ==> is_safe_char(#[trigger] t[i])
}

/// `<verb><x> <y>`, with `places` decimal places.
pub open spec fn pair_command(verb: Seq<char>, x: Double, y: Double, places: nat) -> Seq<char> {
    verb + fixed(x, places) + " "@ + fixed(y, places)
}

pub open spec fn move_meaning(t: Seq<Seq<char>>) -> Option<Seq<Seq<char>>> {
    if t.len() < 3 {
        None
    } else {
        match (coordinate(t[1]), coordinate(t[2])) {
            (Some(x), Some(y)) => Some(seq![pair_command("pointer-move-by "@, x, y, 2)]),
            _ => None,
        }
    }
}

pub open spec fn scroll_meaning(t: Seq<Seq<char>>) -> Option<Seq<Seq<char>>> {
    if t.len() < 2 {
        None
    } else {
        match (coordinate(t[1]), coordinate(if t.len() >= 3 {
            t[2]
        } else {
            "0"@
        })) {
            (Some(y), Some(x)) => Some(seq![pair_command("pointer-scroll "@, y, x, 3)]),
            _ => None,
        }
    }
}

pub open spec fn is_button(b: Seq<char>) -> bool {
    b == "left"@ || b == "right"@ || b == "middle"@
}

pub open spec fn button_meaning(t: Seq<Seq<char>>) -> Option<Seq<Seq<char>>> {
    if t.len() < 3 || !is_button(t[1]) {
        None
    } else if t[2] == "down"@ {
        Some(seq!["pointer-press "@ + t[1]])
    } else if t[2] == "up"@ {
        Some(seq!["pointer-release "@ + t[1]])
    } else if t[2] == "click"@ {
        Some(seq!["pointer-click "@ + t[1]])
    } else {
        None
    }
}

pub open spec fn key_meaning(verb: Seq<char>, t: Seq<Seq<char>>) -> Option<Seq<Seq<char>>> {
    if t.len() < 2 {
        None
    } else {
        match parse_unsigned(t[1], u32::MAX as nat) {
            Some(code) => Some(seq![verb + decimal(code)]),
            None => None,
        }
    }
}

pub open spec fn focus_meaning(t: Seq<Seq<char>>) -> Option<Seq<Seq<char>>> {
    if t.len() < 2 || !is_safe_token(t[1]) {
        None
    } else {
        Some(seq!["focus-window "@ + t[1]])
    }
}

pub open spec fn tap_meaning(button: Seq<char>, t: Seq<Seq<char>>) -> Option<Seq<Seq<char>>> {
    if t.len() < 3 {
        None
    } else {
        match (coordinate(t[1]), coordinate(t[2])) {
            (Some(x), Some(y)) => Some(
                seq![pair_command("pointer-move-to "@, x, y, 1), "pointer-click "@ + button],
            ),
            _ => None,
        }
    }
}

pub open spec fn named_meaning(t: Seq<Seq<char>>) -> Option<Seq<Seq<char>>> {
    if t.len() >= 2 && t[1] == "restart-compositor"@ {
        Some(seq!["restart-compositor"@])
    } else {
        None
    }
}

/// The commands that a frame with the words `t` means.
pub open spec fn meaning(t: Seq<Seq<char>>) -> Option<Seq<Seq<char>>> {
    if t.len() == 0 {
        None
    } else if t[0] == "m"@ {
        move_meaning(t)
    } else if t[0] == "s"@ {
        scroll_meaning(t)
    } else if t[0] == "b"@ {
        button_meaning(t)
    } else if t[0] == "k"@ {
        key_meaning("keypress "@, t)
    } else if t[0] == "kd"@ {
        key_meaning("key-down "@, t)
    } else if t[0] == "ku"@ {
        key_meaning("key-up "@, t)
    } else if t[0] == "wf"@ {
        focus_meaning(t)
    } else if t[0] == "tap"@ {
        tap_meaning("left"@, t)
    } else if t[0] == "tapr"@ {
        tap_meaning("right"@, t)
    } else if t[0] == "cmd"@ {
        named_meaning(t)
    } else {
        None
    }
}

/// The commands that a frame means, or nothing where it is dropped.
pub open spec fn translation(frame: Seq<char>) -> Option<Seq<Seq<char>>> {
    meaning(words(Blanks::Ascii, frame))
}

/// The bytes that carry one command over the control socket.
pub open spec fn command_line(cmd: Seq<char>) -> Seq<char> {
    cmd + "\n"@
}

// ---- reading frames ---------------------------------------------------------------------

/// `v`, where it is finite.
pub fn finite(v: Double) -> (r: Option<Double>)
    ensures
        r == keep_finite(v),
{
    match v.magnitude {
        Magnitude::Finite { .. } => Some(v),
        _ => None,
    }
}

/// Whether `t` may be spliced into a command as a window name.
pub fn safe_token(t: &str) -> (r: bool)
    ensures
        r == is_safe_token(t@),
{
    let c = chars_of(t);
    safe_chars(c.as_slice())
}

fn safe_chars(t: &[char]) -> (r: bool)
    ensures
        r == is_safe_token(t@),
{
    if t.len() == 0 || t.len() > 128 {
        return false;
    }
    let mut i: usize = 0;
    while i < t.len()
        invariant
            i <= t.len(),
            1 <= t.len() <= 128,
            forall|j: int| 0 <= j < i ==> is_safe_char(#[trigger] t@[j]),
        decreases t.len() - i,
    {
        let c = t[i];
        let ok = digit(c) || ('a' <= c && c <= 'z') || ('A' <= c && c <= 'Z') || c == '.' || c
            == '_' || c == '-' || c == ':';
        if !ok {
            assert(!is_safe_char(t@[i as int]));
            return false;
        }
        i += 1;
    }
    true
}

/// Reads a finite number.
fn coordinate_of(word: &[char]) -> (r: Option<Double>)
    ensures
        r == coordinate(word@),
        r matches Some(v) ==> v.wf() && v.finite(),
{
    match double_of(word) {
        Some(v) => finite(v),
        None => None,
    }
}

/// `<verb><x> <y>`.
fn pair(verb: &str, x: Double, y: Double, places: u32) -> (r: String)
    requires
        x.wf(),
        x.finite(),
        y.wf(),
        y.finite(),
        1 <= places <= 3,
    ensures
        r@ == pair_command(verb@, x, y, places as nat),
{
    let mut out = String::new();
    out.append(verb);
    push_fixed(&mut out, x, places);
    out.append(" ");
    push_fixed(&mut out, y, places);
    assert(out@ =~= pair_command(verb@, x, y, places as nat));
    out
}

/// `<head><tail>`.
fn joined(head: &str, tail: &[char]) -> (r: String)
    ensures
        r@ == head@ + tail@,
{
    let mut out = String::new();
    out.append(head);
    push_chars(&mut out, tail);
    assert(out@ =~= head@ + tail@);
    out
}

/// A list of one command.
fn single(cmd: String) -> (r: Vec<String>)
    ensures
        all_texts(r@) == seq![cmd@],
{
    let mut v: Vec<String> = Vec::new();
    v.push(cmd);
    assert(all_texts(v@) =~= seq![cmd@]);
    v
}

/// What a reader of one verb promises.
pub open spec fn carries(r: Option<Vec<String>>, m: Option<Seq<Seq<char>>>) -> bool {
    match r {
        Some(v) => m == Some(all_texts(v@)),
        None => m is None,
    }
}

fn read_pair(verb: &str, t: &Vec<Vec<char>>, places: u32) -> (r: Option<String>)
    requires
        1 <= places <= 3,
    ensures
        t@.len() < 3 ==> r is None,
        t@.len() >= 3 ==> match (coordinate(t@[1]@), coordinate(t@[2]@)) {
            (Some(x), Some(y)) => r is Some && r->0@ == pair_command(verb@, x, y, places as nat),
            _ => r is None,
        },
{
    if t.len() < 3 {
        return None;
    }
    match (coordinate_of(t[1].as_slice()), coordinate_of(t[2].as_slice())) {
        (Some(x), Some(y)) => Some(pair(verb, x, y, places)),
        _ => None,
    }
}

fn read_scroll(t: &Vec<Vec<char>>) -> (r: Option<Vec<String>>)
    ensures
        carries(r, scroll_meaning(all_chars(t@))),
{
    let ghost w = all_chars(t@);
    if t.len() < 2 {
        return None;
    }
    assert(w[1] == t@[1]@);
    let y = match coordinate_of(t[1].as_slice()) {
        Some(v) => v,
        None => {
            return None;
        },
    };
    let found = if t.len() >= 3 {
        assert(w[2] == t@[2]@);
        coordinate_of(t[2].as_slice())
    } else {
        let zero = chars_of("0");
        coordinate_of(zero.as_slice())
    };
    match found {
        Some(x) => Some(single(pair("pointer-scroll ", y, x, 3))),
        None => None,
    }
}

fn read_button(t: &Vec<Vec<char>>) -> (r: Option<Vec<String>>)
    ensures
        carries(r, button_meaning(all_chars(t@))),
{
    let ghost w = all_chars(t@);
    if t.len() < 3 {
        return None;
    }
    assert(w[1] == t@[1]@);
    assert(w[2] == t@[2]@);
    let b = t[1].as_slice();
    let act = t[2].as_slice();
    if !(is_text(b, "left") || is_text(b, "right") || is_text(b, "middle")) {
        return None;
    }
    if is_text(act, "down") {
        Some(single(joined("pointer-press ", b)))
    } else if is_text(act, "up") {
        Some(single(joined("pointer-release ", b)))
    } else if is_text(act, "click") {
        Some(single(joined("pointer-click ", b)))
    } else {
        None
    }
}

fn read_key(verb: &str, t: &Vec<Vec<char>>) -> (r: Option<Vec<String>>)
    ensures
        carries(r, key_meaning(verb@, all_chars(t@))),
{
    let ghost w = all_chars(t@);
    if t.len() < 2 {
        return None;
    }
    assert(w[1] == t@[1]@);
    match unsigned_of(t[1].as_slice(), u32::MAX) {
        Some(code) => {
            let mut out = String::new();
            out.append(verb);
            push_decimal(&mut out, code as u64);
            assert(out@ =~= verb@ + decimal(code as nat));
            Some(single(out))
        },
        None => None,
    }
}

fn read_focus(t: &Vec<Vec<char>>) -> (r: Option<Vec<String>>)
    ensures
        carries(r, focus_meaning(all_chars(t@))),
{
    let ghost w = all_chars(t@);
    if t.len() < 2 {
        return None;
    }
    assert(w[1] == t@[1]@);
    if !safe_chars(t[1].as_slice()) {
        return None;
    }
    Some(single(joined("focus-window ", t[1].as_slice())))
}

fn read_tap(button: &str, t: &Vec<Vec<char>>) -> (r: Option<Vec<String>>)
    ensures
        carries(r, tap_meaning(button@, all_chars(t@))),
{
    let ghost w = all_chars(t@);
    assert(t@.len() >= 3 ==> w[1] == t@[1]@ && w[2] == t@[2]@);
    match read_pair("pointer-move-to ", t, 1) {
        Some(go) => {
            let mut click = String::new();
            click.append("pointer-click ");
            click.append(button);
            assert(click@ =~= "pointer-click "@ + button@);
            let mut v: Vec<String> = Vec::new();
            v.push(go);
            v.push(click);
            assert(all_texts(v@) =~= seq![go@, click@]);
            Some(v)
        },
        None => None,
    }
}

/// The commands that a frame means, in order; nothing where the frame is dropped.
pub fn translate(frame: &str) -> (r: Option<Vec<String>>)
    ensures
        match r {
            Some(v) => translation(frame@) == Some(all_texts(v@)),
            None => translation(frame@) is None,
        },
{
    let c = chars_of(frame);
    let t = words_of(Blanks::Ascii, c.as_slice());
    let ghost w = all_chars(t@);
    if t.len() == 0 {
        return None;
    }
    assert(w[0] == t@[0]@);
    let verb = t[0].as_slice();
    if is_text(verb, "m") {
        assert(t@.len() >= 3 ==> w[1] == t@[1]@ && w[2] == t@[2]@);
        match read_pair("pointer-move-by ", &t, 2) {
            Some(cmd) => Some(single(cmd)),
            None => None,
        }
    } else if is_text(verb, "s") {
        read_scroll(&t)
    } else if is_text(verb, "b") {
        read_button(&t)
    } else if is_text(verb, "k") {
        read_key("keypress ", &t)
    } else if is_text(verb, "kd") {
        read_key("key-down ", &t)
    } else if is_text(verb, "ku") {
        read_key("key-up ", &t)
    } else if is_text(verb, "wf") {
        read_focus(&t)
    } else if is_text(verb, "tap") {
        read_tap("left", &t)
    } else if is_text(verb, "tapr") {
        read_tap("right", &t)
    } else if is_text(verb, "cmd") {
        if t.len() >= 2 {
            assert(w[1] == t@[1]@);
            if is_text(t[1].as_slice(), "restart-compositor") {
                return Some(single(copy_of("restart-compositor")));
            }
        }
        None
    } else {
        None
    }
}

/// One command as it goes over the control socket, ended by a line feed.
pub fn control_line(cmd: &str) -> (r: String)
    ensures
        r@ == command_line(cmd@),
{
    let mut out = String::new();
    out.append(cmd);
    out.append("\n");
    assert(out@ =~= cmd@ + "\n"@);
    out
}

} // verus!
