//! What a paired page may say.
use cce_remote::command::{control_line, finite, safe_token, translate};

/// A frame expected to mean exactly one command.
fn one(frame: &str) -> String {
    let cmds = translate(frame).expect("frame should translate");
    assert_eq!(cmds.len(), 1, "{frame:?} yielded {cmds:?}, expected one command");
    cmds.into_iter().next().unwrap()
}

#[test]
fn pointer_and_scroll_carry_fixed_precision() {
    assert_eq!(one("m 1 -2"), "pointer-move-by 1.00 -2.00");
    assert_eq!(one("m 0.126 -0.126"), "pointer-move-by 0.13 -0.13");
    // Exact .5 ties round half-to-even, not away from zero — sub-pixel
    // detail the page never notices, but pin it so a formatting change
    // shows up here rather than as drifting pointer feel.
    assert_eq!(one("m 0.125 0.135"), "pointer-move-by 0.12 0.14");
    // `s` takes dy first; dx is optional and defaults to 0.
    assert_eq!(one("s 5"), "pointer-scroll 5.000 0.000");
    assert_eq!(one("s 5 -1.5"), "pointer-scroll 5.000 -1.500");
}

#[test]
fn buttons_map_to_press_release_click() {
    assert_eq!(one("b left down"), "pointer-press left");
    assert_eq!(one("b left up"), "pointer-release left");
    assert_eq!(one("b right click"), "pointer-click right");
    assert_eq!(one("b middle click"), "pointer-click middle");
}

#[test]
fn keys_map_to_tap_and_hold() {
    assert_eq!(one("k 28"), "keypress 28");
    assert_eq!(one("kd 42"), "key-down 42");
    assert_eq!(one("ku 42"), "key-up 42");
}

#[test]
fn unknown_verbs_are_dropped() {
    // Note the compositor's own command names: a frame naming one directly
    // must NOT be honored, or the whitelist would be decorative.
    for frame in [
        "", "   ", "x 1", "exit", "spawn foot", "reload",
        "pointer-click left", "keypress 28", "restart-compositor",
    ] {
        assert!(translate(frame).is_none(), "{frame:?} should be dropped");
    }
}

#[test]
fn missing_or_malformed_arguments_are_dropped() {
    for frame in [
        "m", "m 1", "m a b", "m 1 b",
        "s", "s abc", "s 1 abc",
        "k", "k abc", "k -1", "k 1.5", "k 99999999999999999999",
        "kd", "ku",
        "b", "b left", "b left bogus", "b sideways click", "b LEFT click",
        "wf", "cmd",
        "tap", "tapr", "tap 1", "tapr 1", "tap a b", "tap 1 b",
    ] {
        assert!(translate(frame).is_none(), "{frame:?} should be dropped");
    }
}

#[test]
fn non_finite_coordinates_are_dropped() {
    // The hazard is real rather than theoretical — this is exactly what
    // finite() exists to stop, and it is why parse().ok() alone is not
    // enough validation for a float.
    assert!("NaN".parse::<f64>().is_ok());
    assert_eq!(format!("{:.2}", "NaN".parse::<f64>().unwrap()), "NaN");
    assert_eq!(format!("{:.2}", "inf".parse::<f64>().unwrap()), "inf");

    for frame in [
        "m NaN 1", "m 1 NaN", "m inf 0", "m -inf 0", "m 1 infinity",
        "s NaN", "s 1 inf", "s nan 0",
        "tap NaN 1", "tap 1 inf", "tapr -inf 0", "tapr 1 nan",
    ] {
        assert!(translate(frame).is_none(), "{frame:?} should be dropped");
    }
}

#[test]
fn focus_target_is_restricted_to_safe_tokens() {
    assert_eq!(one("wf 12"), "focus-window 12");
    assert_eq!(one("wf org.cce.files"), "focus-window org.cce.files");
    assert_eq!(one("wf a-b_c:d.1"), "focus-window a-b_c:d.1");
    for frame in [
        "wf ../etc", "wf a/b", "wf a;b", "wf a$b", "wf a*b",
        "wf a'b", "wf a\"b", "wf a|b", "wf a&b", "wf a\\b",
    ] {
        assert!(translate(frame).is_none(), "{frame:?} should be dropped");
    }
    // safe_token's length bound, exercised on both sides.
    assert!(translate(&format!("wf {}", "a".repeat(128))).is_some());
    assert!(translate(&format!("wf {}", "a".repeat(129))).is_none());
}

#[test]
fn named_commands_are_whitelisted_never_passed_through() {
    assert_eq!(one("cmd restart-compositor"), "restart-compositor");
    // Trailing junk is discarded, not appended.
    assert_eq!(one("cmd restart-compositor rm -rf"), "restart-compositor");
    for frame in ["cmd exit", "cmd reload", "cmd spawn foot", "cmd RESTART-COMPOSITOR"] {
        assert!(translate(frame).is_none(), "{frame:?} should be dropped");
    }
}

#[test]
fn a_tap_is_one_frame_and_two_commands() {
    // The window-view tap: move the pointer somewhere absolute, then click
    // it. Both commands, in that order — a click without the move lands
    // wherever the pointer happened to be.
    assert_eq!(
        translate("tap 100 200.5").unwrap(),
        ["pointer-move-to 100.0 200.5", "pointer-click left"]
    );
    assert_eq!(
        translate("tapr 0 0").unwrap(),
        ["pointer-move-to 0.0 0.0", "pointer-click right"]
    );
    // Negative coords are legal: the layout origin is not the only anchor.
    assert_eq!(
        translate("tap -5.25 -0.04").unwrap(),
        ["pointer-move-to -5.2 -0.0", "pointer-click left"]
    );
    // Trailing junk is discarded, exactly as for the one-command verbs.
    assert_eq!(
        translate("tap 1 2 pointer-press left").unwrap(),
        ["pointer-move-to 1.0 2.0", "pointer-click left"]
    );
    // A partial tap must emit NOTHING — not a bare move, and above all not
    // a click at whatever position the pointer already had.
    assert!(translate("tap 1").is_none());
    assert!(translate("tap").is_none());
}

#[test]
fn a_newline_can_never_smuggle_a_second_command() {
    // control_command() appends "\n", so an embedded newline in the output
    // would be a second command on the socket. split_ascii_whitespace()
    // eats it and every command is REBUILT from re-parsed values, so
    // trailing tokens are discarded rather than forwarded.
    assert_eq!(one("m 1 2\npointer-click left"), "pointer-move-by 1.00 2.00");
    assert_eq!(one("wf 12\nexit"), "focus-window 12");

    // The property that matters, over every shape the page can send plus
    // deliberate junk: whatever comes out is a single line.
    for frame in [
        "m 1 2\nexit", "m 1\n2", "s 1\nexit", "b left\nclick", "b left click\nexit",
        "k 28\nexit", "kd 42\nexit", "ku 42\nexit", "wf 1\nexit",
        "cmd restart-compositor\nexit", "m\t1\t2", "wf\n12", "  m   1   2  ",
    ] {
        for out in translate(frame).unwrap_or_default() {
            assert!(!out.contains('\n'), "{frame:?} produced a multi-line command: {out:?}");
            assert!(!out.contains('\r'), "{frame:?} produced a CR: {out:?}");
        }
    }
}

#[test]
fn trailing_words_change_nothing() {
    for (frame, longer) in [
        ("m 1 2", "m 1 2 3"),
        ("b left up", "b left up click"),
        ("k 5", "k 5 6"),
        ("wf a", "wf a b"),
        ("tap 1 2", "tap 1 2 3"),
    ] {
        assert_eq!(translate(frame), translate(longer));
    }
    // A third word of a scroll frame counts.
    assert_eq!(one("s 1 2"), "pointer-scroll 1.000 2.000");
}

#[test]
fn only_finite_numbers_are_kept() {
    for v in [0.0f64, -1.5, f64::MAX, f64::NAN, f64::INFINITY, f64::NEG_INFINITY] {
        let d = cce_remote::arith::from_bits(v.to_bits());
        assert_eq!(finite(d), if v.is_finite() { Some(d) } else { None });
    }
}

#[test]
fn tokens_are_safe_or_not() {
    assert!(safe_token("org.cce.files"));
    assert!(safe_token("A-z_0:9"));
    assert!(!safe_token(""));
    assert!(!safe_token("a b"));
    assert!(!safe_token("\u{e9}"));
    assert!(safe_token(&"a".repeat(128)));
    assert!(!safe_token(&"a".repeat(129)));
}

#[test]
fn a_command_goes_out_as_one_line() {
    assert_eq!(control_line("keypress 28"), "keypress 28\n");
    for cmd in translate("tap 1 2\nexit").unwrap() {
        assert_eq!(control_line(&cmd).matches('\n').count(), 1);
    }
}
