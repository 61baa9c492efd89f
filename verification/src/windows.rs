//! What the compositor says about its windows and its pointer.
use vstd::prelude::*;
use vstd::slice::slice_subrange;
use vstd::string::StringExecFns;
use crate::arith::{signed, to_signed, to_unsigned, unsigned};
use crate::digits::{decimal, push_decimal, push_signed, signed_decimal};
use crate::double::Double;
use crate::number::{double_of, parse_double};
use crate::text::{Blanks, all_chars, begins_with, chars_of, contains_text, copy_of, digit, find, first_at, is_digit, occurs, occurs_at, push_chars, starts_with, string_of, text_of};
use crate::words::{lines, lines_of, trim, trim_start, trimmed, trimmed_start, words, words_of};

verus! {

// ---- lists of texts ---------------------------------------------------------------------

/// The texts of a list with `sep` between each and the next.
pub open spec fn join(v: Seq<Seq<char>>, sep: Seq<char>) -> Seq<char>
    decreases v.len(),
{
    if v.len() == 0 {
        seq![]
    } else if v.len() == 1 {
        v[0]
    } else {
        join(v.drop_last(), sep) + sep + v.last()
    }
}

proof fn lemma_join_push(v: Seq<Seq<char>>, sep: Seq<char>, s: Seq<char>)
    ensures
        v.len() == 0 ==> join(v.push(s), sep) == s,
        v.len() > 0 ==> join(v.push(s), sep) == join(v, sep) + sep + s,
{
    assert(v.push(s).drop_last() =~= v);
}

// ---- the window list --------------------------------------------------------------------------

/// Whether a line of the compositor's reply is a window object.
pub open spec fn is_object(line: Seq<char>) -> bool {
    starts_with(trim_start(line), "{"@)
}

/// The window objects among the lines, in order.
pub open spec fn objects(ls: Seq<Seq<char>>) -> Seq<Seq<char>>
    decreases ls.len(),
{
    if ls.len() == 0 {
        seq![]
    } else if is_object(ls.last()) {
        objects(ls.drop_last()).push(ls.last())
    } else {
        objects(ls.drop_last())
    }
}

/// The page's window list: the compositor's window objects as one array.
pub open spec fn window_list(reply: Seq<char>) -> Seq<char> {
    "windows ["@ + join(objects(lines(reply)), ","@) + "]"@
}

/// The page's window list, from the compositor's reply of one object per line.
pub fn window_list_json(reply: &str) -> (r: String)
    ensures
        r@ == window_list(reply@),
{
    let c = chars_of(reply);
    let ls = lines_of(c.as_slice());
    let ghost l = lines(reply@);
    assert(l.len() == ls@.len());
    let mut out = copy_of("windows [");
    let mut first = true;
    let mut i: usize = 0;
    assert(out@ =~= "windows ["@ + join(objects(l.take(0)), ","@));
    while i < ls.len()
        invariant
            i <= ls.len(),
            l == all_chars(ls@),
            first == (objects(l.take(i as int)).len() == 0),
            out@ == "windows ["@ + join(objects(l.take(i as int)), ","@),
        decreases ls.len() - i,
    {
        let line = ls[i].as_slice();
        let ghost before = objects(l.take(i as int));
        assert(l[i as int] == line@);
        assert(l.take(i + 1).drop_last() =~= l.take(i as int));
        assert(l.take(i + 1).last() == line@);
        if begins_with(trimmed_start(line), "{") {
            proof {
                lemma_join_push(before, ","@, line@);
            }
            if !first {
                out.append(",");
            }
            push_chars(&mut out, line);
            first = false;
            assert(out@ =~= "windows ["@ + join(objects(l.take(i + 1)), ","@));
        }
        i += 1;
    }
    assert(l.take(l.len() as int) =~= l);
    out.append("]");
    out
}

// ---- fields of a window object ------------------------------------------------------------------

/// What follows the first `p` in `s`.
pub open spec fn after(s: Seq<char>, p: Seq<char>) -> Option<Seq<char>> {
    if occurs(s, p) {
        let i = choose|i: int| first_at(s, p, i);
        Some(s.skip(i + p.len()))
    } else {
        None
    }
}

pub open spec fn is_numeric(c: char) -> bool {
    is_digit(c) || c == '-' || c == '.'
}

/// How many numeric characters `s` begins with.
pub open spec fn numeric_len(s: Seq<char>) -> nat
    decreases s.len(),
{
    if s.len() == 0 || !is_numeric(s[0]) {
        0
    } else {
        1 + numeric_len(s.drop_first())
    }
}

pub open spec fn key_pattern(key: Seq<char>) -> Seq<char> {
    "\""@ + key + "\":"@
}

/// The number behind the first occurrence of a quoted key and a colon.
pub open spec fn field_number(line: Seq<char>, key: Seq<char>) -> Option<Double> {
    match after(line, key_pattern(key)) {
        Some(rest) => parse_double(rest.take(numeric_len(rest) as int)),
        None => None,
    }
}

fn numeric_prefix(s: &[char]) -> (r: usize)
    ensures
        r == numeric_len(s@),
        r <= s@.len(),
{
    let mut i: usize = 0;
    assert(s@.skip(0) =~= s@);
    while i < s.len() && (digit(s[i]) || s[i] == '-' || s[i] == '.')
        invariant
            i <= s.len(),
            numeric_len(s@) == i + numeric_len(s@.skip(i as int)),
        decreases s.len() - i,
    {
        assert(s@.skip(i as int)[0] == s@[i as int]);
        assert(s@.skip(i as int).drop_first() =~= s@.skip(i + 1));
        i += 1;
    }
    if i < s.len() {
        assert(s@.skip(i as int)[0] == s@[i as int]);
    }
    i
}

fn field_of(line: &[char], key: &str) -> (r: Option<Double>)
    ensures
        r == field_number(line@, key@),
        r matches Some(v) ==> v.wf(),
{
    let mut pat = copy_of("\"");
    pat.append(key);
    pat.append("\":");
    let p = chars_of(pat.as_str());
    assert(p@ =~= key_pattern(key@));
    match find(line, p.as_slice()) {
        Some(i) => {
            proof {
                let j = choose|j: int| first_at(line@, p@, j);
                assert(first_at(line@, p@, i as int));
                assert(occurs_at(line@, p@, i as int));
                if j < i {
                    assert(!occurs_at(line@, p@, j));
                } else if (i as int) < j {
                    assert(!occurs_at(line@, p@, i as int));
                }
                assert(i == j);
            }
            let n = line.len();
            let rest = slice_subrange(line, i + p.len(), n);
            assert(rest@ =~= line@.skip(i + p@.len()));
            let k = numeric_prefix(rest);
            let number = slice_subrange(rest, 0, k);
            assert(number@ =~= rest@.take(k as int));
            double_of(number)
        },
        None => None,
    }
}

/// The number of a window object's field.
pub fn json_num(line: &str, key: &str) -> (r: Option<Double>)
    ensures
        r == field_number(line@, key@),
        r matches Some(v) ==> v.wf(),
{
    let c = chars_of(line);
    field_of(c.as_slice(), key)
}

// ---- the focused window -----------------------------------------------------------------------------

/// A window: its number, and its place and size in layout pixels.
#[derive(Clone, Copy, PartialEq, Eq, Debug, Structural)]
pub struct Window {
    pub id: u64,
    pub x: Double,
    pub y: Double,
    pub w: Double,
    pub h: Double,
}

/// A rectangle in whole pixels.
#[derive(Clone, Copy, PartialEq, Eq, Debug, Structural)]
pub struct Rect {
    pub x: i32,
    pub y: i32,
    pub w: i32,
    pub h: i32,
}

impl Window {
    pub open spec fn wf(self) -> bool {
        self.x.wf() && self.y.wf() && self.w.wf() && self.h.wf()
    }
}

/// Whether a line describes the focused window, status windows aside.
pub open spec fn is_focused(line: Seq<char>) -> bool {
    occurs(line, "\"focused\":true"@) && !occurs(line, "\"mode\":\"Status\""@)
}

/// The window that a line describes, where it has all five numbers.
pub open spec fn window_on(line: Seq<char>) -> Option<Window> {
    match (
        field_number(line, "id"@),
        field_number(line, "x"@),
        field_number(line, "y"@),
        field_number(line, "w"@),
        field_number(line, "h"@),
    ) {
        (Some(id), Some(x), Some(y), Some(w), Some(h)) => Some(
            Window { id: to_unsigned(id, u64::MAX as nat) as u64, x, y, w, h },
        ),
        _ => None,
    }
}

/// The window on the first line that describes the focused one.
pub open spec fn focused_among(ls: Seq<Seq<char>>) -> Option<Window>
    decreases ls.len(),
{
    if ls.len() == 0 {
        None
    } else if is_focused(ls[0]) {
        window_on(ls[0])
    } else {
        focused_among(ls.drop_first())
    }
}

fn window_of(line: &[char]) -> (r: Option<Window>)
    ensures
        r == window_on(line@),
        r matches Some(w) ==> w.wf(),
{
    match (
        field_of(line, "id"),
        field_of(line, "x"),
        field_of(line, "y"),
        field_of(line, "w"),
        field_of(line, "h"),
    ) {
        (Some(id), Some(x), Some(y), Some(w), Some(h)) => Some(
            Window { id: unsigned(id), x, y, w, h },
        ),
        _ => None,
    }
}

/// The focused window, by the compositor's reply of one object per line.
pub fn focused_window(reply: &str) -> (r: Option<Window>)
    ensures
        r == focused_among(lines(reply@)),
        r matches Some(w) ==> w.wf(),
{
    let c = chars_of(reply);
    let ls = lines_of(c.as_slice());
    let ghost l = lines(reply@);
    assert(l.len() == ls@.len());
    let mut i: usize = 0;
    assert(l.skip(0) =~= l);
    while i < ls.len()
        invariant
            i <= ls.len(),
            l == all_chars(ls@),
            l == lines(reply@),
            focused_among(l) == focused_among(l.skip(i as int)),
        decreases ls.len() - i,
    {
        let line = ls[i].as_slice();
        assert(l.skip(i as int)[0] == line@);
        if contains_text(line, "\"focused\":true") && !contains_text(line, "\"mode\":\"Status\"") {
            return window_of(line);
        }
        assert(l.skip(i as int).drop_first() =~= l.skip(i + 1));
        i += 1;
    }
    None
}

/// A window's place and size cut to whole pixels.
pub open spec fn rect(w: Window) -> Rect {
    Rect {
        x: to_signed(w.x, i32::MAX as nat) as i32,
        y: to_signed(w.y, i32::MAX as nat) as i32,
        w: to_signed(w.w, i32::MAX as nat) as i32,
        h: to_signed(w.h, i32::MAX as nat) as i32,
    }
}

/// A window's place and size cut to whole pixels.
pub fn rect_of(win: &Window) -> (r: Rect)
    requires
        win.wf(),
    ensures
        r == rect(*win),
{
    Rect { x: signed(win.x), y: signed(win.y), w: signed(win.w), h: signed(win.h) }
}

/// Where the focused window is, by the compositor's reply if there was one.
pub open spec fn focus_rect(reply: Option<Seq<char>>) -> Option<Rect> {
    match reply {
        Some(text) => match focused_among(lines(text)) {
            Some(w) => Some(rect(w)),
            None => None,
        },
        None => None,
    }
}

/// Where the focused window is, by the compositor's reply if there was one.
pub fn focused_rect(reply: Option<&str>) -> (r: Option<Rect>)
    ensures
        r == focus_rect(text_of(reply)),
{
    match reply {
        Some(text) => match focused_window(text) {
            Some(w) => Some(rect_of(&w)),
            None => None,
        },
        None => None,
    }
}

/// A rectangle as the capture program takes it: `x,y wxh`.
pub open spec fn geometry(r: Rect) -> Seq<char> {
    signed_decimal(r.x as int) + ","@ + signed_decimal(r.y as int) + " "@ + signed_decimal(
        r.w as int,
    ) + "x"@ + signed_decimal(r.h as int)
}

/// A rectangle as the capture program takes it.
pub fn geometry_text(r: Rect) -> (s: String)
    ensures
        s@ == geometry(r),
{
    let mut out = String::new();
    push_signed(&mut out, r.x as i64);
    out.append(",");
    push_signed(&mut out, r.y as i64);
    out.append(" ");
    push_signed(&mut out, r.w as i64);
    out.append("x");
    push_signed(&mut out, r.h as i64);
    assert(out@ =~= geometry(r));
    out
}

// ---- the pointer ------------------------------------------------------------------------------------

/// The coordinates among the words of a pointer report: what follows `x=` or `y=`.
pub open spec fn coordinates(ws: Seq<Seq<char>>) -> Seq<Seq<char>>
    decreases ws.len(),
{
    if ws.len() == 0 {
        seq![]
    } else {
        let rest = coordinates(ws.drop_last());
        let last = ws.last();
        if starts_with(last, "x="@) || starts_with(last, "y="@) {
            rest.push(last.skip(2))
        } else {
            rest
        }
    }
}

/// The page's pointer message, by the compositor's pointer report; nothing
/// where the report has no coordinates.
pub open spec fn pointer_message(reply: Seq<char>) -> Option<Seq<char>> {
    let coords = join(coordinates(words(Blanks::Unicode, reply)), " "@);
    if coords.len() > 0 {
        Some("ploc "@ + coords)
    } else {
        None
    }
}

/// The page's pointer message, if the compositor's report has coordinates.
pub fn pointer_reply(reply: &str) -> (r: Option<String>)
    ensures
        match r {
            Some(s) => pointer_message(reply@) == Some(s@),
            None => pointer_message(reply@) is None,
        },
{
    proof {
        reveal_strlit("x=");
        reveal_strlit("y=");
    }
    let c = chars_of(reply);
    let ws = words_of(Blanks::Unicode, c.as_slice());
    let ghost w = words(Blanks::Unicode, reply@);
    assert(w.len() == ws@.len());
    let mut coords: Vec<char> = Vec::new();
    let mut first = true;
    let mut i: usize = 0;
    assert(coords@ =~= join(coordinates(w.take(0)), " "@));
    while i < ws.len()
        invariant
            i <= ws.len(),
            w == all_chars(ws@),
            "x="@.len() == 2,
            "y="@.len() == 2,
            first == (coordinates(w.take(i as int)).len() == 0),
            coords@ == join(coordinates(w.take(i as int)), " "@),
        decreases ws.len() - i,
    {
        let word = ws[i].as_slice();
        let ghost before = coordinates(w.take(i as int));
        assert(w[i as int] == word@);
        assert(w.take(i + 1).drop_last() =~= w.take(i as int));
        assert(w.take(i + 1).last() == word@);
        if begins_with(word, "x=") || begins_with(word, "y=") {
            let tail = slice_subrange(word, 2, word.len());
            assert(tail@ =~= word@.skip(2));
            proof {
                lemma_join_push(before, " "@, tail@);
                reveal_strlit(" ");
                assert(" "@ =~= seq![' ']);
            }
            if !first {
                coords.push(' ');
            }
            let ghost mid = coords@;
            let mut j: usize = 0;
            while j < tail.len()
                invariant
                    j <= tail.len(),
                    coords@ == mid + tail@.take(j as int),
                decreases tail.len() - j,
            {
                coords.push(tail[j]);
                j += 1;
                assert(tail@.take(j as int) =~= tail@.take(j - 1).push(tail@[j - 1]));
            }
            assert(tail@.take(tail@.len() as int) =~= tail@);
            first = false;
            assert(coords@ =~= join(coordinates(w.take(i + 1)), " "@));
        }
        i += 1;
    }
    assert(w.take(w.len() as int) =~= w);
    if coords.len() > 0 {
        let mut out = copy_of("ploc ");
        push_chars(&mut out, coords.as_slice());
        Some(out)
    } else {
        None
    }
}

// ---- screenshots -----------------------------------------------------------------------------------------

/// The command that asks for a screenshot of window `id`.
pub open spec fn screenshot_request(id: nat) -> Seq<char> {
    "screenshot window "@ + decimal(id)
}

/// The path that a screenshot reply names, after `ok `.
pub open spec fn screenshot_file(reply: Seq<char>) -> Option<Seq<char>> {
    let t = trim(reply);
    if starts_with(t, "ok "@) {
        Some(trim(t.skip("ok "@.len() as int)))
    } else {
        None
    }
}

/// The command that asks for a screenshot of window `id`.
pub fn screenshot_command(id: u64) -> (r: String)
    ensures
        r@ == screenshot_request(id as nat),
{
    let mut out = copy_of("screenshot window ");
    push_decimal(&mut out, id);
    out
}

/// The path that a screenshot reply names.
pub fn screenshot_path(reply: &str) -> (r: Option<String>)
    ensures
        match r {
            Some(s) => screenshot_file(reply@) == Some(s@),
            None => screenshot_file(reply@) is None,
        },
{
    let c = chars_of(reply);
    let t = trimmed(c.as_slice());
    if !begins_with(t, "ok ") {
        return None;
    }
    let prefix = chars_of("ok ");
    let rest = slice_subrange(t, prefix.len(), t.len());
    assert(rest@ =~= t@.skip("ok "@.len() as int));
    Some(string_of(trimmed(rest)))
}

/// How often a screenshot file is read before it is given up.
pub const SHOT_READS: u32 = 5;

/// What follows one read of a screenshot file.
pub enum ShotRead {
    /// The file's bytes; the file is done with.
    Done(Vec<u8>),
    /// Wait a little, then read again; so many reads have been made.
    Again(u32),
    /// Wait a little, then give the screenshot up.
    Missing,
}

/// What follows a read, as contracts see it.
pub enum ShotNext {
    Done(Seq<u8>),
    Again(nat),
    Missing,
}

impl View for ShotRead {
    type V = ShotNext;

    open spec fn view(&self) -> ShotNext {
        match self {
            ShotRead::Done(bytes) => ShotNext::Done(bytes@),
            ShotRead::Again(made) => ShotNext::Again(*made as nat),
            ShotRead::Missing => ShotNext::Missing,
        }
    }
}

/// What follows the read after `made` others.
pub open spec fn shot_next(made: nat, bytes: Option<Seq<u8>>) -> ShotNext {
    if bytes is Some && bytes->0.len() > 0 {
        ShotNext::Done(bytes->0)
    } else if made + 1 < SHOT_READS {
        ShotNext::Again(made + 1)
    } else {
        ShotNext::Missing
    }
}

/// What a file gives that is read until it is not empty, or often enough, with
/// `made` reads behind it.
pub open spec fn shot_after(made: nat, reads: Seq<Option<Seq<u8>>>) -> Option<Seq<u8>>
    decreases reads.len(),
{
    if reads.len() == 0 {
        None
    } else {
        match shot_next(made, reads[0]) {
            ShotNext::Done(bytes) => Some(bytes),
            ShotNext::Again(n) => shot_after(n, reads.drop_first()),
            ShotNext::Missing => None,
        }
    }
}

/// What follows the read after `made` others: a non-empty file is the
/// screenshot, and anything else is tried again, up to five reads in all.
pub fn screenshot_read(made: u32, bytes: Option<Vec<u8>>) -> (r: ShotRead)
    requires
        made < SHOT_READS,
    ensures
        match bytes {
            Some(b) if b@.len() > 0 => r == ShotRead::Done(b),
            _ => if made + 1 < SHOT_READS {
                r == ShotRead::Again((made + 1) as u32)
            } else {
                r == ShotRead::Missing
            },
        },
        r@ == shot_next(
            made as nat,
            match bytes {
                Some(b) => Some(b@),
                None => None,
            },
        ),
{
    match bytes {
        Some(b) => {
            if b.len() > 0 {
                return ShotRead::Done(b);
            }
        },
        None => {},
    }
    if made + 1 < SHOT_READS {
        ShotRead::Again(made + 1)
    } else {
        ShotRead::Missing
    }
}

} // verus!
