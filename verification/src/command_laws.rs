//! What holds of every input frame.
use vstd::prelude::*;
use vstd::arithmetic::power::pow;
use vstd::arithmetic::power2::pow2;
use crate::arith::fixed;
use crate::command::{
    command_line, coordinate, is_button, is_safe_char, is_safe_token, pair_command, translation,
};
use crate::digits::{
    all_digits, decimal, lemma_decimal_digits, lemma_padded_digits, padded, parse_unsigned,
};
use crate::double::{Double, half_even};
use crate::text::{Blanks, is_digit};
use crate::words::words;

verus! {

// ---- shapes -----------------------------------------------------------------------------

/// Whether `s` is one line: it holds neither a line feed nor a carriage return.
pub open spec fn is_one_line(s: Seq<char>) -> bool {
    forall|i: int| 0 <= i < s.len() ==> #[trigger] s[i] != '\n' && s[i] != '\r'
}

/// A plain decimal number with `places` digits after its point.
pub open spec fn is_number(s: Seq<char>, places: nat) -> bool {
    exists|sign: Seq<char>, whole: Seq<char>, fraction: Seq<char>|
        {
            &&& s == #[trigger] (sign + whole + seq!['.'] + fraction)
            &&& sign == Seq::<char>::empty() || sign == seq!['-']
            &&& all_digits(whole) && whole.len() > 0
            &&& all_digits(fraction) && fraction.len() == places
        }
}

/// `<verb><number> <number>`.
pub open spec fn is_pair_command(c: Seq<char>, verb: Seq<char>, places: nat) -> bool {
    exists|x: Seq<char>, y: Seq<char>|
        is_number(x, places) && is_number(y, places) && c == #[trigger] (verb + x + " "@ + y)
}

/// `<verb><left|right|middle>`.
pub open spec fn is_button_command(c: Seq<char>, verb: Seq<char>) -> bool {
    exists|b: Seq<char>| is_button(b) && c == #[trigger] (verb + b)
}

/// `<verb><digits>`.
pub open spec fn is_key_command(c: Seq<char>, verb: Seq<char>) -> bool {
    exists|d: Seq<char>| all_digits(d) && d.len() > 0 && c == #[trigger] (verb + d)
}

/// `focus-window <safe token>`.
pub open spec fn is_focus_command(c: Seq<char>) -> bool {
    exists|t: Seq<char>| is_safe_token(t) && c == #[trigger] ("focus-window "@ + t)
}

/// The fixed shapes of command.
pub open spec fn is_command(c: Seq<char>) -> bool {
    ||| is_pair_command(c, "pointer-move-by "@, 2)
    ||| is_pair_command(c, "pointer-scroll "@, 3)
    ||| is_pair_command(c, "pointer-move-to "@, 1)
    ||| is_button_command(c, "pointer-press "@)
    ||| is_button_command(c, "pointer-release "@)
    ||| is_button_command(c, "pointer-click "@)
    ||| is_key_command(c, "keypress "@)
    ||| is_key_command(c, "key-down "@)
    ||| is_key_command(c, "key-up "@)
    ||| is_focus_command(c)
    ||| c == "restart-compositor"@
}

proof fn lemma_fixed_is_number(v: Double, places: nat)
    ensures
        is_number(fixed(v, places), places),
{
    let scale = pow(10, places) as nat;
    let n = half_even(v.units() * scale, pow2(1074));
    let sign: Seq<char> = if v.negative {
        seq!['-']
    } else {
        seq![]
    };
    let whole = decimal(n / scale);
    let fraction = padded(n % scale, places);
    lemma_decimal_digits(n / scale);
    lemma_padded_digits(n % scale, places);
    assert(fixed(v, places) == sign + whole + seq!['.'] + fraction);
}

proof fn lemma_pair_shape(verb: Seq<char>, x: Double, y: Double, places: nat)
    ensures
        is_pair_command(pair_command(verb, x, y, places), verb, places),
{
    lemma_fixed_is_number(x, places);
    lemma_fixed_is_number(y, places);
    assert(pair_command(verb, x, y, places) == verb + fixed(x, places) + " "@ + fixed(y, places));
}

/// Whatever a frame holds, each command it yields has one of the fixed shapes.
pub proof fn commands_have_fixed_shapes(frame: Seq<char>)
    ensures
        match translation(frame) {
            Some(cs) => forall|i: int| 0 <= i < cs.len() ==> is_command(#[trigger] cs[i]),
            None => true,
        },
{
    let t = words(Blanks::Ascii, frame);
    if let Some(cs) = translation(frame) {
        assert forall|i: int| 0 <= i < cs.len() implies is_command(#[trigger] cs[i]) by {
            let c = cs[i];
            if t[0] == "m"@ {
                lemma_pair_shape("pointer-move-by "@, coordinate(t[1])->0, coordinate(t[2])->0, 2);
            } else if t[0] == "s"@ {
                let third = if t.len() >= 3 {
                    t[2]
                } else {
                    "0"@
                };
                lemma_pair_shape("pointer-scroll "@, coordinate(t[1])->0, coordinate(third)->0, 3);
            } else if t[0] == "b"@ {
                assert(c == "pointer-press "@ + t[1] || c == "pointer-release "@ + t[1] || c
                    == "pointer-click "@ + t[1]);
            } else if t[0] == "k"@ || t[0] == "kd"@ || t[0] == "ku"@ {
                let code = parse_unsigned(t[1], u32::MAX as nat)->0;
                lemma_decimal_digits(code);
                assert(c == "keypress "@ + decimal(code) || c == "key-down "@ + decimal(code) || c
                    == "key-up "@ + decimal(code));
            } else if t[0] == "wf"@ {
                assert(c == "focus-window "@ + t[1]);
            } else if t[0] == "tap"@ || t[0] == "tapr"@ {
                lemma_pair_shape("pointer-move-to "@, coordinate(t[1])->0, coordinate(t[2])->0, 1);
                assert(is_button("left"@) && is_button("right"@));
                if i == 1 {
                    assert(c == "pointer-click "@ + "left"@ || c == "pointer-click "@ + "right"@);
                }
            }
        }
    }
}

// ---- lines ---------------------------------------------------------------------------------

proof fn lemma_line_concat(a: Seq<char>, b: Seq<char>)
    requires
        is_one_line(a),
        is_one_line(b),
    ensures
        is_one_line(a + b),
{
    assert forall|i: int| 0 <= i < (a + b).len() implies #[trigger] (a + b)[i] != '\n' && (a + b)[i]
        != '\r' by {
        if i < a.len() {
            assert((a + b)[i] == a[i]);
        } else {
            assert((a + b)[i] == b[i - a.len()]);
        }
    }
}

proof fn lemma_digits_line(s: Seq<char>)
    requires
        all_digits(s),
    ensures
        is_one_line(s),
{
    assert forall|i: int| 0 <= i < s.len() implies #[trigger] s[i] != '\n' && s[i] != '\r' by {
        assert(is_digit(s[i]));
    }
}

proof fn lemma_number_line(s: Seq<char>, places: nat)
    requires
        is_number(s, places),
    ensures
        is_one_line(s),
{
    let (sign, whole, fraction) = choose|sign: Seq<char>, whole: Seq<char>, fraction: Seq<char>|
        {
            &&& s == #[trigger] (sign + whole + seq!['.'] + fraction)
            &&& sign == Seq::<char>::empty() || sign == seq!['-']
            &&& all_digits(whole) && whole.len() > 0
            &&& all_digits(fraction) && fraction.len() == places
        };
    lemma_digits_line(whole);
    lemma_digits_line(fraction);
    lemma_line_concat(sign, whole);
    lemma_line_concat(sign + whole, seq!['.']);
    lemma_line_concat(sign + whole + seq!['.'], fraction);
}

proof fn lemma_literals_are_lines()
    ensures
        is_one_line("pointer-move-by "@),
        is_one_line("pointer-scroll "@),
        is_one_line("pointer-move-to "@),
        is_one_line("pointer-press "@),
        is_one_line("pointer-release "@),
        is_one_line("pointer-click "@),
        is_one_line("keypress "@),
        is_one_line("key-down "@),
        is_one_line("key-up "@),
        is_one_line("focus-window "@),
        is_one_line("restart-compositor"@),
        is_one_line(" "@),
        is_one_line("left"@),
        is_one_line("right"@),
        is_one_line("middle"@),
{
    reveal_strlit("pointer-move-by ");
    reveal_strlit("pointer-scroll ");
    reveal_strlit("pointer-move-to ");
    reveal_strlit("pointer-press ");
    reveal_strlit("pointer-release ");
    reveal_strlit("pointer-click ");
    reveal_strlit("keypress ");
    reveal_strlit("key-down ");
    reveal_strlit("key-up ");
    reveal_strlit("focus-window ");
    reveal_strlit("restart-compositor");
    reveal_strlit(" ");
    reveal_strlit("left");
    reveal_strlit("right");
    reveal_strlit("middle");
}

proof fn lemma_pair_line(c: Seq<char>, verb: Seq<char>, places: nat)
    requires
        is_pair_command(c, verb, places),
        is_one_line(verb),
        is_one_line(" "@),
    ensures
        is_one_line(c),
{
    let (x, y) = choose|x: Seq<char>, y: Seq<char>|
        is_number(x, places) && is_number(y, places) && c == #[trigger] (verb + x + " "@ + y);
    lemma_number_line(x, places);
    lemma_number_line(y, places);
    lemma_line_concat(verb, x);
    lemma_line_concat(verb + x, " "@);
    lemma_line_concat(verb + x + " "@, y);
}

proof fn lemma_button_line(c: Seq<char>, verb: Seq<char>)
    requires
        is_button_command(c, verb),
        is_one_line(verb),
    ensures
        is_one_line(c),
{
    lemma_literals_are_lines();
    let b = choose|b: Seq<char>| is_button(b) && c == #[trigger] (verb + b);
    lemma_line_concat(verb, b);
}

proof fn lemma_key_line(c: Seq<char>, verb: Seq<char>)
    requires
        is_key_command(c, verb),
        is_one_line(verb),
    ensures
        is_one_line(c),
{
    let d = choose|d: Seq<char>| all_digits(d) && d.len() > 0 && c == #[trigger] (verb + d);
    lemma_digits_line(d);
    lemma_line_concat(verb, d);
}

/// A command of a fixed shape is one line.
pub proof fn shapes_are_single_lines(c: Seq<char>)
    requires
        is_command(c),
    ensures
        is_one_line(c),
{
    lemma_literals_are_lines();
    if is_pair_command(c, "pointer-move-by "@, 2) {
        lemma_pair_line(c, "pointer-move-by "@, 2);
    } else if is_pair_command(c, "pointer-scroll "@, 3) {
        lemma_pair_line(c, "pointer-scroll "@, 3);
    } else if is_pair_command(c, "pointer-move-to "@, 1) {
        lemma_pair_line(c, "pointer-move-to "@, 1);
    } else if is_button_command(c, "pointer-press "@) {
        lemma_button_line(c, "pointer-press "@);
    } else if is_button_command(c, "pointer-release "@) {
        lemma_button_line(c, "pointer-release "@);
    } else if is_button_command(c, "pointer-click "@) {
        lemma_button_line(c, "pointer-click "@);
    } else if is_key_command(c, "keypress "@) {
        lemma_key_line(c, "keypress "@);
    } else if is_key_command(c, "key-down "@) {
        lemma_key_line(c, "key-down "@);
    } else if is_key_command(c, "key-up "@) {
        lemma_key_line(c, "key-up "@);
    } else if is_focus_command(c) {
        let t = choose|t: Seq<char>| is_safe_token(t) && c == #[trigger] ("focus-window "@ + t);
        assert(is_one_line(t)) by {
            assert forall|i: int| 0 <= i < t.len() implies #[trigger] t[i] != '\n' && t[i]
                != '\r' by {
                assert(is_safe_char(t[i]));
            }
        }
        lemma_line_concat("focus-window "@, t);
    }
}

/// A line feed in a frame never smuggles in a second command: whatever comes
/// out of a frame is a list of single lines.
pub proof fn commands_are_single_lines(frame: Seq<char>)
    ensures
        match translation(frame) {
            Some(cs) => forall|i: int| 0 <= i < cs.len() ==> is_one_line(#[trigger] cs[i]),
            None => true,
        },
{
    commands_have_fixed_shapes(frame);
    if let Some(cs) = translation(frame) {
        assert forall|i: int| 0 <= i < cs.len() implies is_one_line(#[trigger] cs[i]) by {
            assert(is_command(cs[i]));
            shapes_are_single_lines(cs[i]);
        }
    }
}

/// What goes over the control socket for a command is that command and a line
/// feed, the only one.
pub proof fn a_control_line_is_one_line(frame: Seq<char>, i: int)
    requires
        translation(frame) is Some,
        0 <= i < translation(frame)->0.len(),
    ensures
        ({
            let line = command_line(translation(frame)->0[i]);
            line.last() == '\n' && line.drop_last() == translation(frame)->0[i] && is_one_line(
                line.drop_last(),
            )
        }),
{
    commands_are_single_lines(frame);
    reveal_strlit("\n");
    let cs = translation(frame)->0;
    let line = command_line(cs[i]);
    assert(is_one_line(cs[i]));
    assert(line.drop_last() =~= cs[i]);
}

// ---- counts and verbs -------------------------------------------------------------------------

/// Whether the page's protocol has the verb `v`.
pub open spec fn is_verb(v: Seq<char>) -> bool {
    ||| v == "m"@ || v == "s"@ || v == "b"@ || v == "k"@ || v == "kd"@ || v == "ku"@
    ||| v == "wf"@ || v == "tap"@ || v == "tapr"@ || v == "cmd"@
}

/// A frame whose first word is no verb of the protocol is dropped, be it the
/// name of a compositor command.
pub proof fn unknown_verbs_mean_nothing(frame: Seq<char>)
    requires
        words(Blanks::Ascii, frame).len() > 0 ==> !is_verb(words(Blanks::Ascii, frame)[0]),
    ensures
        translation(frame) is None,
{
}

/// A tap is two commands, a move and then a click; every other frame that means
/// anything is one command. No frame yields an empty list or part of a tap.
pub proof fn a_tap_is_two_commands(frame: Seq<char>)
    ensures
        match translation(frame) {
            Some(cs) => {
                let verb = words(Blanks::Ascii, frame)[0];
                if verb == "tap"@ || verb == "tapr"@ {
                    &&& cs.len() == 2
                    &&& is_pair_command(cs[0], "pointer-move-to "@, 1)
                    &&& cs[1] == "pointer-click "@ + (if verb == "tapr"@ {
                        "right"@
                    } else {
                        "left"@
                    })
                } else {
                    cs.len() == 1
                }
            },
            None => true,
        },
{
    let t = words(Blanks::Ascii, frame);
    if let Some(cs) = translation(frame) {
        assert("tap"@ != "m"@ && "tap"@ != "s"@ && "tap"@ != "b"@ && "tap"@ != "k"@ && "tap"@
            != "kd"@ && "tap"@ != "ku"@ && "tap"@ != "wf"@ && "tapr"@ != "tap"@ && "tapr"@ != "m"@
            && "tapr"@ != "s"@ && "tapr"@ != "b"@ && "tapr"@ != "k"@ && "tapr"@ != "kd"@ && "tapr"@
            != "ku"@ && "tapr"@ != "wf"@) by {
            reveal_strlit("tap");
            reveal_strlit("tapr");
            reveal_strlit("m");
            reveal_strlit("s");
            reveal_strlit("b");
            reveal_strlit("k");
            reveal_strlit("kd");
            reveal_strlit("ku");
            reveal_strlit("wf");
            assert("tap"@[0] == 't' && "tapr"@[0] == 't');
            assert("tap"@.len() == 3 && "tapr"@.len() == 4);
            assert("kd"@.len() == 2 && "ku"@.len() == 2 && "wf"@.len() == 2);
        }
        if t[0] == "tap"@ || t[0] == "tapr"@ {
            lemma_pair_shape("pointer-move-to "@, coordinate(t[1])->0, coordinate(t[2])->0, 1);
        }
    }
}

/// How many words of a frame count, its verb being `v`.
pub open spec fn word_count(v: Seq<char>) -> nat {
    if v == "m"@ || v == "s"@ || v == "b"@ || v == "tap"@ || v == "tapr"@ {
        3
    } else {
        2
    }
}

/// Words past those that count are discarded, never forwarded: frames that
/// agree on the words that count mean the same.
pub proof fn trailing_words_are_discarded(a: Seq<char>, b: Seq<char>)
    requires
        ({
            let (s, t) = (words(Blanks::Ascii, a), words(Blanks::Ascii, b));
            &&& s.len() > 0
            &&& s.len() >= word_count(s[0]) && t.len() >= word_count(s[0])
            &&& s.take(word_count(s[0]) as int) == t.take(word_count(s[0]) as int)
        }),
    ensures
        translation(a) == translation(b),
{
    let (s, t) = (words(Blanks::Ascii, a), words(Blanks::Ascii, b));
    let n = word_count(s[0]) as int;
    assert(s[0] == s.take(n)[0] && t[0] == t.take(n)[0]);
    assert(s[1] == s.take(n)[1] && t[1] == t.take(n)[1]);
    if n == 3 {
        assert(s[2] == s.take(n)[2] && t[2] == t.take(n)[2]);
    }
}

/// A coordinate that is infinite or not a number never reaches a command: the
/// frame that holds it is dropped whole.
pub proof fn unusable_coordinates_drop_the_frame(frame: Seq<char>, i: int)
    requires
        ({
            let t = words(Blanks::Ascii, frame);
            &&& t.len() > i
            &&& i == 1 || i == 2
            &&& t[0] == "m"@ || t[0] == "s"@ || t[0] == "tap"@ || t[0] == "tapr"@
            &&& coordinate(t[i]) is None
        }),
    ensures
        translation(frame) is None,
{
    let t = words(Blanks::Ascii, frame);
    assert(t[0] != "b"@ && t[0] != "k"@ && t[0] != "kd"@ && t[0] != "ku"@ && t[0] != "wf"@ && t[0]
        != "cmd"@) by {
        reveal_strlit("tap");
        reveal_strlit("tapr");
        reveal_strlit("m");
        reveal_strlit("s");
        reveal_strlit("b");
        reveal_strlit("k");
        reveal_strlit("kd");
        reveal_strlit("ku");
        reveal_strlit("wf");
        reveal_strlit("cmd");
        assert("b"@[0] == 'b' && "k"@[0] == 'k' && "kd"@[0] == 'k' && "ku"@[0] == 'k' && "wf"@[0]
            == 'w' && "cmd"@[0] == 'c');
        assert("m"@[0] == 'm' && "s"@[0] == 's' && "tap"@[0] == 't' && "tapr"@[0] == 't');
    }
}

} // verus!
