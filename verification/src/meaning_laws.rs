//! What each input frame means, told from its words.
use vstd::prelude::*;
use crate::arith::fixed;
use crate::command::{is_safe_token, translation};
use crate::digits::{all_digits, decimal, numeral, parse_unsigned};
use crate::double::Double;
use crate::number::parse_double;
use crate::number_laws::{decimals_are_plain, fixed_numbers_show_their_value, shows};
use crate::reading_laws::zero_is_read_as_zero;
use crate::text::Blanks;
use crate::words::words;

verus! {

/// Whether a word is read as a finite number.
pub open spec fn is_finite_number(word: Seq<char>) -> bool {
    parse_double(word) is Some && parse_double(word)->0.finite()
}

/// Whether a command is `verb`, the number `x`, a space and the number `y`, each
/// shown as it is with `places` places.
pub open spec fn pair_shown(
    c: Seq<char>,
    verb: Seq<char>,
    x: Double,
    y: Double,
    places: nat,
) -> bool {
    exists|a: Seq<char>, b: Seq<char>|
        c == #[trigger] (verb + a + " "@ + b) && shows(a, x, places) && shows(b, y, places)
}

proof fn lemma_pair_shown(verb: Seq<char>, x: Double, y: Double, places: nat)
    ensures
        pair_shown(verb + fixed(x, places) + " "@ + fixed(y, places), verb, x, y, places),
{
    fixed_numbers_show_their_value(x, places);
    fixed_numbers_show_their_value(y, places);
}

proof fn lemma_verbs()
    ensures
        "s"@ != "m"@,
        "b"@ != "m"@ && "b"@ != "s"@,
        "k"@ != "m"@ && "k"@ != "s"@ && "k"@ != "b"@,
        "kd"@ != "m"@ && "kd"@ != "s"@ && "kd"@ != "b"@ && "kd"@ != "k"@,
        "ku"@ != "m"@ && "ku"@ != "s"@ && "ku"@ != "b"@ && "ku"@ != "k"@ && "ku"@ != "kd"@,
        "wf"@ != "m"@ && "wf"@ != "s"@ && "wf"@ != "b"@ && "wf"@ != "k"@ && "wf"@ != "kd"@ && "wf"@
            != "ku"@,
        "tap"@ != "m"@ && "tap"@ != "s"@ && "tap"@ != "b"@ && "tap"@ != "k"@ && "tap"@ != "kd"@
            && "tap"@ != "ku"@ && "tap"@ != "wf"@,
        "tapr"@ != "m"@ && "tapr"@ != "s"@ && "tapr"@ != "b"@ && "tapr"@ != "k"@ && "tapr"@ != "kd"@
            && "tapr"@ != "ku"@ && "tapr"@ != "wf"@ && "tapr"@ != "tap"@,
        "cmd"@ != "m"@ && "cmd"@ != "s"@ && "cmd"@ != "b"@ && "cmd"@ != "k"@ && "cmd"@ != "kd"@
            && "cmd"@ != "ku"@ && "cmd"@ != "wf"@ && "cmd"@ != "tap"@ && "cmd"@ != "tapr"@,
{
    reveal_strlit("m");
    reveal_strlit("s");
    reveal_strlit("b");
    reveal_strlit("k");
    reveal_strlit("kd");
    reveal_strlit("ku");
    reveal_strlit("wf");
    reveal_strlit("tap");
    reveal_strlit("tapr");
    reveal_strlit("cmd");
    assert("m"@[0] == 'm' && "s"@[0] == 's' && "b"@[0] == 'b' && "k"@[0] == 'k');
    assert("kd"@[0] == 'k' && "ku"@[0] == 'k' && "kd"@[1] == 'd' && "ku"@[1] == 'u');
    assert("wf"@[0] == 'w' && "tap"@[0] == 't' && "tapr"@[0] == 't' && "cmd"@[0] == 'c');
    assert("k"@.len() == 1 && "kd"@.len() == 2 && "ku"@.len() == 2);
    assert("tap"@.len() == 3 && "tapr"@.len() == 4);
}

/// A move goes by the frame's own second and third words, in that order, each
/// with its sign and to the nearest hundredth; it is dropped exactly if one of
/// them is missing or no finite number.
pub proof fn a_move_goes_by_its_words(frame: Seq<char>)
    requires
        words(Blanks::Ascii, frame).len() > 0,
        words(Blanks::Ascii, frame)[0] == "m"@,
    ensures
        ({
            let t = words(Blanks::Ascii, frame);
            let ok = t.len() >= 3 && is_finite_number(t[1]) && is_finite_number(t[2]);
            &&& (translation(frame) is Some) == ok
            &&& ok ==> translation(frame)->0.len() == 1 && pair_shown(
                translation(frame)->0[0],
                "pointer-move-by "@,
                parse_double(t[1])->0,
                parse_double(t[2])->0,
                2,
            )
        }),
{
    lemma_verbs();
    let t = words(Blanks::Ascii, frame);
    if t.len() >= 3 {
        lemma_pair_shown("pointer-move-by "@, parse_double(t[1])->0, parse_double(t[2])->0, 2);
    }
}

/// A scroll goes by the frame's own second and third words, in that order, each
/// with its sign and to the nearest thousandth; a third word that is missing
/// counts as zero. It is dropped exactly if the second is missing, or one of
/// them is no finite number.
pub proof fn a_scroll_goes_by_its_words(frame: Seq<char>)
    requires
        words(Blanks::Ascii, frame).len() > 0,
        words(Blanks::Ascii, frame)[0] == "s"@,
    ensures
        ({
            let t = words(Blanks::Ascii, frame);
            let ok = t.len() >= 2 && is_finite_number(t[1]) && (t.len() >= 3 ==> is_finite_number(
                t[2],
            ));
            &&& (translation(frame) is Some) == ok
            &&& ok ==> translation(frame)->0.len() == 1
            &&& ok && t.len() >= 3 ==> pair_shown(
                translation(frame)->0[0],
                "pointer-scroll "@,
                parse_double(t[1])->0,
                parse_double(t[2])->0,
                3,
            )
            &&& ok && t.len() == 2 ==> exists|zero: Double|
                zero.finite() && !zero.negative && zero.units() == 0 && #[trigger] pair_shown(
                    translation(frame)->0[0],
                    "pointer-scroll "@,
                    parse_double(t[1])->0,
                    zero,
                    3,
                )
        }),
{
    lemma_verbs();
    let t = words(Blanks::Ascii, frame);
    zero_is_read_as_zero();
    if t.len() >= 3 {
        lemma_pair_shown("pointer-scroll "@, parse_double(t[1])->0, parse_double(t[2])->0, 3);
    } else if t.len() == 2 {
        let zero = parse_double("0"@)->0;
        lemma_pair_shown("pointer-scroll "@, parse_double(t[1])->0, zero, 3);
        if is_finite_number(t[1]) {
            assert(zero.finite());
            assert(pair_shown(
                translation(frame)->0[0],
                "pointer-scroll "@,
                parse_double(t[1])->0,
                zero,
                3,
            ));
        }
    }
}

/// A tap moves to the frame's own second and third words, in that order, each
/// with its sign and to the nearest tenth, and then clicks: left, or right for
/// `tapr`. It is dropped exactly if one of them is missing or no finite number.
pub proof fn a_tap_goes_by_its_words(frame: Seq<char>)
    requires
        words(Blanks::Ascii, frame).len() > 0,
        words(Blanks::Ascii, frame)[0] == "tap"@ || words(Blanks::Ascii, frame)[0] == "tapr"@,
    ensures
        ({
            let t = words(Blanks::Ascii, frame);
            let ok = t.len() >= 3 && is_finite_number(t[1]) && is_finite_number(t[2]);
            &&& (translation(frame) is Some) == ok
            &&& ok ==> translation(frame)->0.len() == 2 && pair_shown(
                translation(frame)->0[0],
                "pointer-move-to "@,
                parse_double(t[1])->0,
                parse_double(t[2])->0,
                1,
            )
            &&& ok && t[0] == "tap"@ ==> translation(frame)->0[1] == "pointer-click left"@
            &&& ok && t[0] == "tapr"@ ==> translation(frame)->0[1] == "pointer-click right"@
        }),
{
    lemma_verbs();
    let t = words(Blanks::Ascii, frame);
    reveal_strlit("pointer-click ");
    reveal_strlit("left");
    reveal_strlit("right");
    reveal_strlit("pointer-click left");
    reveal_strlit("pointer-click right");
    assert("pointer-click "@ + "left"@ =~= "pointer-click left"@);
    assert("pointer-click "@ + "right"@ =~= "pointer-click right"@);
    if t.len() >= 3 {
        lemma_pair_shown("pointer-move-to "@, parse_double(t[1])->0, parse_double(t[2])->0, 1);
    }
}

/// What a button frame's third word asks for.
pub open spec fn button_verb(action: Seq<char>) -> Option<Seq<char>> {
    if action == "down"@ {
        Some("pointer-press "@)
    } else if action == "up"@ {
        Some("pointer-release "@)
    } else if action == "click"@ {
        Some("pointer-click "@)
    } else {
        None
    }
}

/// A button frame presses, releases or clicks the very button it names, one of
/// the three, and nothing else is forwarded.
pub proof fn a_button_frame_names_its_button(frame: Seq<char>)
    requires
        words(Blanks::Ascii, frame).len() > 0,
        words(Blanks::Ascii, frame)[0] == "b"@,
    ensures
        ({
            let t = words(Blanks::Ascii, frame);
            let ok = t.len() >= 3 && (t[1] == "left"@ || t[1] == "right"@ || t[1] == "middle"@)
                && button_verb(t[2]) is Some;
            &&& (translation(frame) is Some) == ok
            &&& ok ==> translation(frame) == Some(seq![button_verb(t[2])->0 + t[1]])
        }),
{
    lemma_verbs();
}

/// A key frame taps, holds or releases the very key whose number it gives.
pub proof fn a_key_frame_names_its_key(frame: Seq<char>)
    requires
        words(Blanks::Ascii, frame).len() > 0,
        ({
            let v = words(Blanks::Ascii, frame)[0];
            v == "k"@ || v == "kd"@ || v == "ku"@
        }),
    ensures
        ({
            let t = words(Blanks::Ascii, frame);
            let ok = t.len() >= 2 && parse_unsigned(t[1], u32::MAX as nat) is Some;
            let d = decimal(parse_unsigned(t[1], u32::MAX as nat)->0);
            &&& (translation(frame) is Some) == ok
            &&& ok ==> all_digits(d) && numeral(d) == parse_unsigned(t[1], u32::MAX as nat)->0
            &&& ok && t[0] == "k"@ ==> translation(frame) == Some(seq!["keypress "@ + d])
            &&& ok && t[0] == "kd"@ ==> translation(frame) == Some(seq!["key-down "@ + d])
            &&& ok && t[0] == "ku"@ ==> translation(frame) == Some(seq!["key-up "@ + d])
        }),
{
    lemma_verbs();
    let t = words(Blanks::Ascii, frame);
    if t.len() >= 2 {
        decimals_are_plain(parse_unsigned(t[1], u32::MAX as nat)->0);
    }
}

/// Whether a character may stand in a window's name.
pub open spec fn may_name(c: char) -> bool {
    ||| 'a' <= c <= 'z'
    ||| 'A' <= c <= 'Z'
    ||| '0' <= c <= '9'
    ||| c == '.' || c == '_' || c == '-' || c == ':'
}

/// A focus frame names its window: the very word, if it has 1 to 128 characters
/// and each may stand in a name.
pub proof fn a_focus_frame_names_its_window(frame: Seq<char>)
    requires
        words(Blanks::Ascii, frame).len() > 0,
        words(Blanks::Ascii, frame)[0] == "wf"@,
    ensures
        ({
            let t = words(Blanks::Ascii, frame);
            let ok = t.len() >= 2 && 1 <= t[1].len() <= 128 && forall|i: int|
                0 <= i < t[1].len() ==> may_name(#[trigger] t[1][i]);
            translation(frame) == (if ok {
                Some(seq!["focus-window "@ + t[1]])
            } else {
                None
            })
        }),
{
    lemma_verbs();
    let t = words(Blanks::Ascii, frame);
    if t.len() >= 2 {
        assert(is_safe_token(t[1]) == (1 <= t[1].len() <= 128 && forall|i: int|
            0 <= i < t[1].len() ==> may_name(#[trigger] t[1][i]))) by {
            assert forall|c: char| #[trigger] may_name(c) == crate::command::is_safe_char(c) by {}
            if is_safe_token(t[1]) {
                assert forall|i: int| 0 <= i < t[1].len() implies may_name(#[trigger] t[1][i]) by {
                    assert(crate::command::is_safe_char(t[1][i]));
                }
            }
            if forall|i: int| 0 <= i < t[1].len() ==> may_name(#[trigger] t[1][i]) {
                assert forall|i: int| 0 <= i < t[1].len() implies crate::command::is_safe_char(
                    #[trigger] t[1][i],
                ) by {
                    assert(may_name(t[1][i]));
                }
            }
        }
    }
}

/// The one command with a name is forwarded by its name, and no other text is.
pub proof fn only_a_restart_has_a_name(frame: Seq<char>)
    requires
        words(Blanks::Ascii, frame).len() > 0,
        words(Blanks::Ascii, frame)[0] == "cmd"@,
    ensures
        ({
            let t = words(Blanks::Ascii, frame);
            translation(frame) == (if t.len() >= 2 && t[1] == "restart-compositor"@ {
                Some(seq!["restart-compositor"@])
            } else {
                None
            })
        }),
{
    lemma_verbs();
}

} // verus!
