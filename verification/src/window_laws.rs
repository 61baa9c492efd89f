//! What the compositor's replies come to, told from their texts.
use vstd::prelude::*;
use vstd::arithmetic::power2::pow2;
use crate::arith::to_unsigned;
use crate::digits::{all_digits, decimal, numeral, signed_decimal};
use crate::double::Double;
use crate::number::parse_double;
use crate::number_laws::{decimals_are_plain, numbers_are_cut_toward_zero};
use crate::pairing_laws::unspaced;
use crate::text::{Blanks, first_at, is_blank, occurs, occurs_at, starts_with};
use crate::windows::{
    Rect, Window, coordinates, field_number, focus_rect, focused_among, geometry, is_focused,
    is_numeric, is_object, join, key_pattern, numeric_len, objects, pointer_message, rect,
    screenshot_file, screenshot_request, shot_after, window_list,
};
use crate::word_laws::{
    all_blank, blanks_part_words, every_text_is_its_trimming_in_white_space, lacks, lines_add_up,
    solid, solid_text_is_one_word, text_without_a_line_feed_is_one_line,
    trimming_drops_the_white_space_around, whole_lines,
};
use crate::words::{lines, trim, words};

verus! {

/// Whether `p` stands somewhere in `s`.
pub open spec fn holds(s: Seq<char>, p: Seq<char>) -> bool {
    exists|a: Seq<char>, b: Seq<char>| s == #[trigger] (a + p + b)
}

proof fn lemma_holds(s: Seq<char>, p: Seq<char>)
    ensures
        holds(s, p) == occurs(s, p),
{
    if holds(s, p) {
        let (a, b) = choose|a: Seq<char>, b: Seq<char>| s == #[trigger] (a + p + b);
        assert(s.subrange(a.len() as int, (a.len() + p.len()) as int) =~= p);
        assert(occurs_at(s, p, a.len() as int));
    }
    if occurs(s, p) {
        let i = choose|i: int| #[trigger] occurs_at(s, p, i);
        let (a, b) = (s.take(i), s.skip(i + p.len()));
        assert(s =~= a + s.subrange(i, i + p.len()) + b);
        assert(s == a + p + b);
    }
}

// ---- the focused window -------------------------------------------------------------------------

/// Whether a line speaks of the focused window: it says so, and does not say
/// that the mode is `Status`. Whatever else it says makes no difference.
pub open spec fn speaks_of_focus(line: Seq<char>) -> bool {
    holds(line, "\"focused\":true"@) && !holds(line, "\"mode\":\"Status\""@)
}

/// Whether a line has all five numbers of a window.
pub open spec fn has_five_numbers(line: Seq<char>) -> bool {
    &&& field_number(line, "id"@) is Some
    &&& field_number(line, "x"@) is Some
    &&& field_number(line, "y"@) is Some
    &&& field_number(line, "w"@) is Some
    &&& field_number(line, "h"@) is Some
}

/// The first line that speaks of the focused window decides: it gives the window
/// with just its numbers, or none where it lacks one. Lines that do not speak of
/// it are passed over, and no others.
pub proof fn the_first_focused_line_decides(ls: Seq<Seq<char>>, i: int)
    requires
        0 <= i < ls.len(),
        speaks_of_focus(ls[i]),
        forall|j: int| 0 <= j < i ==> !speaks_of_focus(#[trigger] ls[j]),
    ensures
        (focused_among(ls) is Some) == has_five_numbers(ls[i]),
        has_five_numbers(ls[i]) ==> ({
            let w = focused_among(ls)->0;
            &&& w.id == to_unsigned(field_number(ls[i], "id"@)->0, u64::MAX as nat)
            &&& w.x == field_number(ls[i], "x"@)->0
            &&& w.y == field_number(ls[i], "y"@)->0
            &&& w.w == field_number(ls[i], "w"@)->0
            &&& w.h == field_number(ls[i], "h"@)->0
        }),
    decreases i,
{
    lemma_speaks(ls[0]);
    if i > 0 {
        assert(!speaks_of_focus(ls[0]));
        let rest = ls.drop_first();
        assert(rest[i - 1] == ls[i]);
        assert forall|j: int| 0 <= j < i - 1 implies !speaks_of_focus(#[trigger] rest[j]) by {
            assert(rest[j] == ls[j + 1]);
        }
        the_first_focused_line_decides(rest, i - 1);
    } else {
        if field_number(ls[0], "id"@) is Some {
            lemma_id_fits(field_number(ls[0], "id"@)->0);
        }
    }
}

proof fn lemma_id_fits(v: Double)
    ensures
        to_unsigned(v, u64::MAX as nat) <= u64::MAX,
{
}

proof fn lemma_speaks(line: Seq<char>)
    ensures
        speaks_of_focus(line) == is_focused(line),
{
    lemma_holds(line, "\"focused\":true"@);
    lemma_holds(line, "\"mode\":\"Status\""@);
}

/// Without a line that speaks of the focused window there is none.
pub proof fn no_focused_line_gives_no_window(ls: Seq<Seq<char>>)
    requires
        forall|j: int| 0 <= j < ls.len() ==> !speaks_of_focus(#[trigger] ls[j]),
    ensures
        focused_among(ls) is None,
    decreases ls.len(),
{
    if ls.len() > 0 {
        lemma_speaks(ls[0]);
        assert(!speaks_of_focus(ls[0]));
        let rest = ls.drop_first();
        assert forall|j: int| 0 <= j < rest.len() implies !speaks_of_focus(#[trigger] rest[j]) by {
            assert(rest[j] == ls[j + 1]);
        }
        no_focused_line_gives_no_window(rest);
    }
}

/// A window's line is found wherever it stands in the reply, after lines that do
/// not speak of the focused window and before any others.
pub proof fn a_focused_window_is_found(before: Seq<char>, line: Seq<char>, after: Seq<char>)
    requires
        whole_lines(before),
        lacks(line, '\n'),
        speaks_of_focus(line),
        has_five_numbers(line),
        forall|j: int| 0 <= j < lines(before).len() ==> !speaks_of_focus(#[trigger] lines(before)[j]),
    ensures
        ({
            let r = focused_among(lines(before + (line + seq!['\r', '\n']) + after));
            &&& r is Some
            &&& r->0.id == to_unsigned(field_number(line, "id"@)->0, u64::MAX as nat)
            &&& r->0.x == field_number(line, "x"@)->0
            &&& r->0.y == field_number(line, "y"@)->0
            &&& r->0.w == field_number(line, "w"@)->0
            &&& r->0.h == field_number(line, "h"@)->0
        }),
{
    let full = line + seq!['\r', '\n'];
    text_without_a_line_feed_is_one_line(line);
    lines_add_up(full, after);
    lines_add_up(before, full + after);
    assert(before + (full + after) =~= before + full + after);
    let ls = lines(before + full + after);
    let n = lines(before).len() as int;
    assert(ls[n] == line);
    assert forall|j: int| 0 <= j < n implies !speaks_of_focus(#[trigger] ls[j]) by {
        assert(ls[j] == lines(before)[j]);
    }
    the_first_focused_line_decides(ls, n);
}

/// A field is the number right after its first quoted key and colon, as far as
/// digits, points and minus signs go.
pub proof fn a_field_is_the_number_after_its_key(
    pre: Seq<char>,
    key: Seq<char>,
    number: Seq<char>,
    post: Seq<char>,
)
    requires
        !holds(pre + (seq!['"'] + key + seq!['"']), seq!['"'] + key + seq!['"', ':']),
        forall|i: int|
            0 <= i < number.len() ==> '0' <= #[trigger] number[i] <= '9' || number[i] == '-'
                || number[i] == '.',
        post.len() > 0 ==> !('0' <= post[0] <= '9') && post[0] != '-' && post[0] != '.',
    ensures
        field_number(pre + (seq!['"'] + key + seq!['"', ':']) + number + post, key)
            == parse_double(number),
{
    reveal_strlit("\"");
    reveal_strlit("\":");
    let p = seq!['"'] + key + seq!['"', ':'];
    assert(key_pattern(key) =~= p);
    let line = pre + p + number + post;
    let n = pre.len() as int;
    assert(line.subrange(n, n + p.len()) =~= p);
    assert(occurs_at(line, p, n));
    let early = pre + (seq!['"'] + key + seq!['"']);
    lemma_holds(early, p);
    assert forall|j: int| 0 <= j < n implies !#[trigger] occurs_at(line, p, j) by {
        if occurs_at(line, p, j) {
            assert(early =~= line.take(n + p.len() - 1));
            assert(early.subrange(j, j + p.len()) =~= line.subrange(j, j + p.len()));
            assert(occurs_at(early, p, j));
        }
    }
    assert(first_at(line, p, n));
    let i = choose|i: int| first_at(line, p, i);
    if i < n {
        assert(!occurs_at(line, p, i));
    } else if n < i {
        assert(!occurs_at(line, p, n));
    }
    let rest = line.skip(n + p.len());
    assert(rest =~= number + post);
    lemma_numeric_run(number, post);
    assert(rest.take(number.len() as int) =~= number);
}

proof fn lemma_numeric_run(a: Seq<char>, b: Seq<char>)
    requires
        forall|i: int| 0 <= i < a.len() ==> is_numeric(#[trigger] a[i]),
        b.len() > 0 ==> !is_numeric(b[0]),
    ensures
        numeric_len(a + b) == a.len(),
    decreases a.len(),
{
    if a.len() == 0 {
        assert(a + b =~= b);
    } else {
        assert((a + b)[0] == a[0]);
        assert(is_numeric(a[0]));
        assert((a + b).drop_first() =~= a.drop_first() + b);
        assert forall|i: int| 0 <= i < a.drop_first().len() implies is_numeric(
            #[trigger] a.drop_first()[i],
        ) by {
            assert(a.drop_first()[i] == a[i + 1]);
        }
        lemma_numeric_run(a.drop_first(), b);
    }
}

/// A line without the quoted key and colon has no such field.
pub proof fn a_field_needs_its_key(line: Seq<char>, key: Seq<char>)
    requires
        !holds(line, seq!['"'] + key + seq!['"', ':']),
    ensures
        field_number(line, key) is None,
{
    reveal_strlit("\"");
    reveal_strlit("\":");
    assert(key_pattern(key) =~= seq!['"'] + key + seq!['"', ':']);
    lemma_holds(line, key_pattern(key));
}

// ---- rectangles ---------------------------------------------------------------------------------

/// Whether `n` is the finite number `v` cut toward zero, or the end of the
/// 32-bit range beyond which `v` lies.
pub open spec fn is_cut(n: i32, v: Double) -> bool {
    let one = pow2(1074) as int;
    let size = if n < 0 {
        -(n as int)
    } else {
        n as int
    };
    &&& n < 0 ==> v.negative
    &&& n > 0 ==> !v.negative
    &&& size * one <= v.units()
    &&& i32::MIN < n < i32::MAX ==> v.units() < (size + 1) * one
}

/// Each edge of a window's rectangle is that edge of the window, cut toward zero.
pub proof fn a_rectangle_is_the_window_cut_to_pixels(w: Window)
    requires
        w.x.finite(),
        w.y.finite(),
        w.w.finite(),
        w.h.finite(),
    ensures
        is_cut(rect(w).x, w.x),
        is_cut(rect(w).y, w.y),
        is_cut(rect(w).w, w.w),
        is_cut(rect(w).h, w.h),
{
    numbers_are_cut_toward_zero(w.x, i32::MAX as nat);
    numbers_are_cut_toward_zero(w.y, i32::MAX as nat);
    numbers_are_cut_toward_zero(w.w, i32::MAX as nat);
    numbers_are_cut_toward_zero(w.h, i32::MAX as nat);
}

/// The rectangle of a reply is that of its focused window; no reply has none.
pub proof fn a_reply_gives_its_focused_rectangle(reply: Seq<char>)
    ensures
        focused_among(lines(reply)) is Some ==> focus_rect(Some(reply)) == Some(
            rect(focused_among(lines(reply))->0),
        ),
        focused_among(lines(reply)) is None ==> focus_rect(Some(reply)) is None,
        focus_rect(None) is None,
{
}

/// A rectangle is written with its own four numbers, place first, in decimal.
pub proof fn a_geometry_names_its_rectangle(r: Rect)
    ensures
        geometry(r) == signed_decimal(r.x as int) + seq![','] + signed_decimal(r.y as int)
            + seq![' '] + signed_decimal(r.w as int) + seq!['x'] + signed_decimal(r.h as int),
{
    reveal_strlit(",");
    reveal_strlit(" ");
    reveal_strlit("x");
    assert(","@ =~= seq![',']);
    assert(" "@ =~= seq![' ']);
    assert("x"@ =~= seq!['x']);
}

// ---- the window list ----------------------------------------------------------------------------

proof fn lemma_object(a: Seq<char>, rest: Seq<char>)
    requires
        all_blank(a),
    ensures
        is_object(a + seq!['{'] + rest),
    decreases a.len(),
{
    reveal_strlit("{");
    let s = a + seq!['{'] + rest;
    if a.len() == 0 {
        assert(s[0] == '{');
        assert(s.take(1) =~= "{"@);
        assert(!is_blank(Blanks::Unicode, '{'));
    } else {
        assert(is_blank(Blanks::Unicode, a[0]));
        assert(s[0] == a[0]);
        assert(s.drop_first() =~= a.drop_first() + seq!['{'] + rest);
        assert forall|i: int| 0 <= i < a.drop_first().len() implies is_blank(
            Blanks::Unicode,
            #[trigger] a.drop_first()[i],
        ) by {
            assert(a.drop_first()[i] == a[i + 1]);
        }
        lemma_object(a.drop_first(), rest);
    }
}

proof fn lemma_object_has_brace(line: Seq<char>)
    requires
        is_object(line),
    ensures
        line.len() > 0,
        exists|i: int| 0 <= i < line.len() && #[trigger] line[i] == '{' && all_blank(line.take(i)),
    decreases line.len(),
{
    reveal_strlit("{");
    if line.len() > 0 && is_blank(Blanks::Unicode, line[0]) {
        let rest = line.drop_first();
        lemma_object_has_brace(rest);
        let i = choose|i: int|
            0 <= i < rest.len() && #[trigger] rest[i] == '{' && all_blank(rest.take(i));
        assert(line[i + 1] == '{');
        assert forall|j: int| 0 <= j < line.take(i + 1).len() implies is_blank(
            Blanks::Unicode,
            #[trigger] line.take(i + 1)[j],
        ) by {
            if j > 0 {
                assert(line.take(i + 1)[j] == rest.take(i)[j - 1]);
            }
        }
    } else {
        assert(line.take(1)[0] == '{');
        assert(line[0] == '{');
        assert(all_blank(line.take(0)));
    }
}

proof fn lemma_objects_add(a: Seq<Seq<char>>, line: Seq<char>)
    ensures
        objects(a.push(line)) == (if is_object(line) {
            objects(a).push(line)
        } else {
            objects(a)
        }),
{
    assert(a.push(line).drop_last() =~= a);
}

proof fn lemma_objects_solid(a: Seq<Seq<char>>)
    ensures
        forall|i: int| 0 <= i < objects(a).len() ==> (#[trigger] objects(a)[i]).len() > 0,
    decreases a.len(),
{
    if a.len() > 0 {
        let front = objects(a.drop_last());
        lemma_objects_solid(a.drop_last());
        if is_object(a.last()) {
            lemma_object_has_brace(a.last());
        }
        assert forall|i: int| 0 <= i < objects(a).len() implies (#[trigger] objects(a)[i]).len()
            > 0 by {
            if i < front.len() {
                assert(objects(a)[i] == front[i]);
            }
        }
    }
}

proof fn lemma_join_len(v: Seq<Seq<char>>, sep: Seq<char>)
    requires
        forall|i: int| 0 <= i < v.len() ==> (#[trigger] v[i]).len() > 0,
    ensures
        (join(v, sep).len() > 0) == (v.len() > 0),
{
    if v.len() > 0 {
        assert(v[v.len() - 1].len() > 0);
    }
}

/// The window list of no text is the empty array.
pub proof fn no_reply_lists_no_windows()
    ensures
        window_list(Seq::<char>::empty()) == "windows []"@,
{
    reveal_strlit("windows [");
    reveal_strlit("]");
    reveal_strlit("windows []");
    assert(lines(Seq::<char>::empty()) =~= Seq::<Seq<char>>::empty());
    assert(window_list(Seq::<char>::empty()) =~= "windows []"@);
}

/// A further line whose first character but white space is a brace is added to
/// the array as it is, after a comma unless it is the first.
pub proof fn a_further_object_is_added_to_the_array(
    text: Seq<char>,
    a: Seq<char>,
    rest: Seq<char>,
) -> (inner: Seq<char>)
    requires
        whole_lines(text),
        all_blank(a),
        lacks(a + seq!['{'] + rest, '\n'),
    ensures
        window_list(text) == "windows ["@ + inner + "]"@,
        window_list(text + (a + seq!['{'] + rest + seq!['\r', '\n'])) == "windows ["@ + (
        if inner.len() == 0 {
            a + seq!['{'] + rest
        } else {
            inner + seq![','] + (a + seq!['{'] + rest)
        }) + "]"@,
{
    let line = a + seq!['{'] + rest;
    let full = line + seq!['\r', '\n'];
    text_without_a_line_feed_is_one_line(line);
    lines_add_up(text, full);
    let ls = lines(text);
    assert(lines(text + full) =~= ls.push(line));
    lemma_object(a, rest);
    lemma_objects_add(ls, line);
    lemma_objects_solid(ls);
    lemma_join_len(objects(ls), ","@);
    let inner = join(objects(ls), ","@);
    reveal_strlit(",");
    assert(","@ =~= seq![',']);
    let more = objects(ls).push(line);
    assert(more.drop_last() =~= objects(ls));
    inner
}

/// Any other line is left out.
pub proof fn other_lines_are_no_windows(text: Seq<char>, line: Seq<char>)
    requires
        whole_lines(text),
        lacks(line, '\n'),
        forall|i: int|
            0 <= i < line.len() && #[trigger] line[i] == '{' ==> !all_blank(line.take(i)),
    ensures
        window_list(text + (line + seq!['\r', '\n'])) == window_list(text),
{
    let full = line + seq!['\r', '\n'];
    text_without_a_line_feed_is_one_line(line);
    lines_add_up(text, full);
    assert(lines(text + full) =~= lines(text).push(line));
    lemma_objects_add(lines(text), line);
    if is_object(line) {
        lemma_object_has_brace(line);
    }
}

// ---- the pointer --------------------------------------------------------------------------------

proof fn lemma_coordinates_add(ws: Seq<Seq<char>>, w: Seq<char>)
    ensures
        coordinates(ws.push(w)) == (if starts_with(w, "x="@) || starts_with(w, "y="@) {
            coordinates(ws).push(w.skip(2))
        } else {
            coordinates(ws)
        }),
{
    assert(ws.push(w).drop_last() =~= ws);
}

proof fn lemma_word_added(reply: Seq<char>, w: Seq<char>)
    requires
        unspaced(w),
        w.len() > 0,
    ensures
        words(Blanks::Unicode, reply + seq![' '] + w) == words(Blanks::Unicode, reply).push(w),
{
    blanks_part_words(Blanks::Unicode, reply, ' ', w);
    solid_text_is_one_word(Blanks::Unicode, w);
    assert(words(Blanks::Unicode, reply) + seq![w] =~= words(Blanks::Unicode, reply).push(w));
}

/// A further `x=` or `y=` word adds what follows the sign to the pointer message,
/// after a space; in a report that had none it makes the message. Any other word
/// changes nothing.
pub proof fn a_further_coordinate_is_added(reply: Seq<char>, axis: char, n: Seq<char>)
    requires
        axis == 'x' || axis == 'y',
        unspaced(n),
    ensures
        pointer_message(reply) is Some ==> pointer_message(
            reply + seq![' '] + (seq![axis, '='] + n),
        ) == Some(pointer_message(reply)->0 + seq![' '] + n),
        (forall|i: int|
            0 <= i < words(Blanks::Unicode, reply).len() ==> !is_coordinate(
                #[trigger] words(Blanks::Unicode, reply)[i],
            )) && n.len() > 0 ==> pointer_message(reply + seq![' '] + (seq![axis, '='] + n)) == Some(
            "ploc "@ + n,
        ),
{
    reveal_strlit("x=");
    reveal_strlit("y=");
    reveal_strlit(" ");
    assert(" "@ =~= seq![' ']);
    let w = seq![axis, '='] + n;
    assert forall|i: int| 0 <= i < w.len() implies !is_blank(Blanks::Unicode, #[trigger] w[i]) by {
        if i >= 2 {
            assert(w[i] == n[i - 2]);
        }
    }
    lemma_word_added(reply, w);
    let ws = words(Blanks::Unicode, reply);
    lemma_coordinates_add(ws, w);
    assert(w.take(2) =~= seq![axis, '=']);
    assert("x="@ =~= seq!['x', '=']);
    assert("y="@ =~= seq!['y', '=']);
    assert(w.skip(2) =~= n);
    let cs = coordinates(ws);
    assert(cs.push(n).drop_last() =~= cs);
    if forall|i: int| 0 <= i < ws.len() ==> !is_coordinate(#[trigger] ws[i]) {
        lemma_no_coordinates(ws);
        assert(join(cs.push(n), " "@) =~= n);
    }
    if pointer_message(reply) is Some {
        assert("ploc "@ + (join(cs, " "@) + " "@ + n) =~= "ploc "@ + join(cs, " "@) + seq![' '] + n);
    }
}

/// Whether a word of a report gives a coordinate.
pub open spec fn is_coordinate(w: Seq<char>) -> bool {
    w.len() >= 2 && (w[0] == 'x' || w[0] == 'y') && w[1] == '='
}

proof fn lemma_is_coordinate(w: Seq<char>)
    ensures
        is_coordinate(w) == (starts_with(w, "x="@) || starts_with(w, "y="@)),
{
    reveal_strlit("x=");
    reveal_strlit("y=");
    assert("x="@ =~= seq!['x', '=']);
    assert("y="@ =~= seq!['y', '=']);
    if w.len() >= 2 {
        assert(w.take(2)[0] == w[0] && w.take(2)[1] == w[1]);
        if is_coordinate(w) {
            assert(w.take(2) =~= seq![w[0], '=']);
        }
    }
}

proof fn lemma_no_coordinates(ws: Seq<Seq<char>>)
    requires
        forall|i: int| 0 <= i < ws.len() ==> !is_coordinate(#[trigger] ws[i]),
    ensures
        coordinates(ws) == Seq::<Seq<char>>::empty(),
    decreases ws.len(),
{
    if ws.len() > 0 {
        lemma_is_coordinate(ws.last());
        assert(!is_coordinate(ws[ws.len() - 1]));
        let front = ws.drop_last();
        assert forall|i: int| 0 <= i < front.len() implies !is_coordinate(#[trigger] front[i]) by {
            assert(front[i] == ws[i]);
        }
        lemma_no_coordinates(front);
    }
}

/// A word that gives no coordinate changes nothing, and a report of such words
/// alone gives no message.
pub proof fn other_words_are_no_coordinates(reply: Seq<char>, w: Seq<char>)
    requires
        unspaced(w),
        w.len() > 0,
        !is_coordinate(w),
    ensures
        pointer_message(reply + seq![' '] + w) == pointer_message(reply),
        (forall|i: int|
            0 <= i < words(Blanks::Unicode, reply).len() ==> !is_coordinate(
                #[trigger] words(Blanks::Unicode, reply)[i],
            )) ==> pointer_message(reply) is None,
{
    lemma_word_added(reply, w);
    let ws = words(Blanks::Unicode, reply);
    lemma_coordinates_add(ws, w);
    lemma_is_coordinate(w);
    if forall|i: int| 0 <= i < ws.len() ==> !is_coordinate(#[trigger] ws[i]) {
        lemma_no_coordinates(ws);
    }
}

// ---- screenshots --------------------------------------------------------------------------------

/// A screenshot reply names the path after `ok `, between white space.
pub proof fn a_screenshot_reply_names_its_path(
    a: Seq<char>,
    b: Seq<char>,
    path: Seq<char>,
    c: Seq<char>,
)
    requires
        all_blank(a),
        all_blank(b),
        all_blank(c),
        solid(path),
        path.len() > 0,
    ensures
        screenshot_file(a + ("ok "@ + b + path) + c) == Some(path),
{
    reveal_strlit("ok ");
    let t = "ok "@ + b + path;
    assert(t[0] == 'o');
    assert(t.last() == path.last());
    trimming_drops_the_white_space_around(a, t, c);
    assert(t.take(3) =~= "ok "@);
    let none = Seq::<char>::empty();
    assert(t.skip(3) =~= b + path + none);
    trimming_drops_the_white_space_around(b, path, none);
}

/// A reply that names a path says `ok ` first, but for white space.
pub proof fn only_ok_names_a_path(reply: Seq<char>) -> (r: (Seq<char>, Seq<char>))
    requires
        screenshot_file(reply) is Some,
    ensures
        all_blank(r.0),
        reply == r.0 + "ok "@ + r.1,
{
    let (a, b) = every_text_is_its_trimming_in_white_space(reply);
    let t = trim(reply);
    let n = "ok "@.len() as int;
    assert(t =~= "ok "@ + t.skip(n));
    assert(reply =~= a + "ok "@ + (t.skip(n) + b));
    (a, t.skip(n) + b)
}

/// A screenshot is the first of five reads that is not empty, and there is none
/// if all five are.
pub proof fn a_screenshot_is_the_first_read_that_is_not_empty(
    reads: Seq<Option<Seq<u8>>>,
    i: int,
)
    requires
        reads.len() == 5,
        0 <= i <= 5,
        forall|j: int|
            0 <= j < i ==> !(#[trigger] reads[j] is Some && reads[j]->0.len() > 0),
        i < 5 ==> reads[i] is Some && reads[i]->0.len() > 0,
    ensures
        shot_after(0, reads) == (if i < 5 {
            Some(reads[i]->0)
        } else {
            None
        }),
{
    lemma_reads(0, reads, i);
}

proof fn lemma_reads(made: nat, reads: Seq<Option<Seq<u8>>>, i: int)
    requires
        made < 5,
        reads.len() == 5 - made,
        0 <= i <= reads.len(),
        forall|j: int|
            0 <= j < i ==> !(#[trigger] reads[j] is Some && reads[j]->0.len() > 0),
        i < reads.len() ==> reads[i] is Some && reads[i]->0.len() > 0,
    ensures
        shot_after(made, reads) == (if i < reads.len() {
            Some(reads[i]->0)
        } else {
            None
        }),
    decreases reads.len(),
{
    if i > 0 {
        assert(!(reads[0] is Some && reads[0]->0.len() > 0));
        if made < 4 {
            let rest = reads.drop_first();
            assert forall|j: int| 0 <= j < i - 1 implies !(#[trigger] rest[j] is Some
                && rest[j]->0.len() > 0) by {
                assert(rest[j] == reads[j + 1]);
            }
            lemma_reads(made + 1, rest, i - 1);
        }
    }
}

/// A screenshot is asked for by the window's own number, in decimal.
pub proof fn a_screenshot_is_asked_for_by_number(id: nat)
    ensures
        screenshot_request(id) == "screenshot window "@ + decimal(id),
        all_digits(decimal(id)),
        numeral(decimal(id)) == id,
{
    decimals_are_plain(id);
}

} // verus!
