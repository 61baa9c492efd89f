//! Who is paired.
use cce_remote::pairing::{auth_frame_ok, fresh_pin, header_pin_ok, pin_file_text, pin_matches, pin_path, query_pin_ok, stored_pin};

const PIN: &str = "123456";

fn head(lines: &[&str]) -> String {
    format!("{}\r\n\r\n", lines.join("\r\n"))
}

#[test]
fn ws_auth_requires_exactly_auth_then_pin() {
    assert!(auth_frame_ok("auth 123456", PIN));
    assert!(auth_frame_ok("auth   123456  ", PIN)); // value is trimmed
    for frame in [
        "auth 123457",      // wrong PIN
        "auth 12345",       // prefix of it
        "auth 1234567",     // superstring of it
        "auth ",            // empty candidate
        "auth",             // no separator
        "AUTH 123456",      // verb is case-sensitive
        "auth123456",
        " auth 123456",     // must be the whole frame, unprefixed
        "m 1 2",            // an input event before pairing
        "",
    ] {
        assert!(!auth_frame_ok(frame, PIN), "{frame:?} must not authenticate");
    }
}

#[test]
fn an_empty_pin_authorizes_nothing() {
    // A PIN file never holds one, so this should be unreachable, which is
    // exactly why it is worth pinning.
    assert!(!auth_frame_ok("auth ", ""));
    assert!(!auth_frame_ok("auth", ""));
    assert!(!header_pin_ok(&head(&["GET /shot HTTP/1.1", "X-Pin:"]), ""));
    assert!(!header_pin_ok(&head(&["GET /shot HTTP/1.1", "X-Pin: "]), ""));
    assert!(!query_pin_ok(&head(&["GET /stream?pin= HTTP/1.1"]), ""));
}

#[test]
fn x_pin_header_is_matched_case_insensitively_by_name_only() {
    for name in ["X-Pin", "x-pin", "X-PIN", "x-PiN"] {
        let h = head(&["GET /shot HTTP/1.1", &format!("{name}: {PIN}"), "Host: x"]);
        assert!(header_pin_ok(&h, PIN), "{name} should be accepted");
    }
    // Value whitespace is trimmed; the value itself must match exactly.
    assert!(header_pin_ok(&head(&["GET /shot HTTP/1.1", "X-Pin:   123456  "]), PIN));
    for bad in ["X-Pin: 123457", "X-Pin: 12345", "X-Pin: 1234567", "X-Pin:", "X-Pinx: 123456"] {
        let h = head(&["GET /shot HTTP/1.1", bad]);
        assert!(!header_pin_ok(&h, PIN), "{bad:?} must not authenticate");
    }
    // No header at all.
    assert!(!header_pin_ok(&head(&["GET /shot HTTP/1.1", "Host: x"]), PIN));
}

#[test]
fn query_pin_is_a_parameter_not_a_substring() {
    assert!(query_pin_ok(&head(&["GET /stream?pin=123456 HTTP/1.1"]), PIN));
    assert!(query_pin_ok(&head(&["GET /stream?pin=123456&g=7 HTTP/1.1"]), PIN));
    assert!(query_pin_ok(&head(&["GET /stream?g=7&pin=123456 HTTP/1.1"]), PIN));
    for bad in [
        "GET /stream?notpin=123456 HTTP/1.1",  // not a substring search
        "GET /stream?pin=1234567 HTTP/1.1",
        "GET /stream?xpin=123456 HTTP/1.1",
        "GET /stream?pin=12345 HTTP/1.1",
        "GET /stream?pin= HTTP/1.1",
        "GET /stream?pin HTTP/1.1",
        "GET /stream HTTP/1.1",                // no query at all
        "GET /pin=123456 HTTP/1.1",            // in the PATH, not the query
    ] {
        assert!(!query_pin_ok(&head(&[bad]), PIN), "{bad:?} must not authenticate");
    }
}

#[test]
fn the_two_http_gates_are_not_interchangeable() {
    // /stream takes either (an <img src> cannot send headers); /shot takes
    // the header only, so the PIN stays out of URLs and logs where it can.
    let query_only = head(&["GET /stream?pin=123456 HTTP/1.1", "Host: x"]);
    assert!(query_pin_ok(&query_only, PIN));
    assert!(!header_pin_ok(&query_only, PIN), "/shot must not accept a URL PIN");

    let header_only = head(&["GET /shot HTTP/1.1", "X-Pin: 123456"]);
    assert!(header_pin_ok(&header_only, PIN));
    assert!(!query_pin_ok(&header_only, PIN));
}

#[test]
fn a_pin_matches_itself_alone() {
    assert!(pin_matches(PIN, PIN));
    assert!(!pin_matches("123457", PIN));
    assert!(!pin_matches("", ""));
    assert!(!pin_matches(PIN, ""));
}

#[test]
fn one_frame_does_not_pair_twice() {
    assert!(auth_frame_ok("auth 123456", "123456"));
    assert!(!auth_frame_ok("auth 123456", "654321"));
}

#[test]
fn a_fresh_pin_is_six_digits_and_persists() {
    assert_eq!(fresh_pin([0, 0, 0, 0]), "000000");
    assert_eq!(fresh_pin([42, 0, 0, 0]), "000042");
    assert_eq!(fresh_pin([0xff; 4]), format!("{:06}", u32::MAX % 1_000_000));
    assert_eq!(fresh_pin([1, 2, 3, 4]), format!("{:06}", u32::from_le_bytes([1, 2, 3, 4]) % 1_000_000));
    let pin = fresh_pin([9, 200, 13, 77]);
    assert_eq!(pin_file_text(&pin), format!("{pin}\n"));
    assert_eq!(stored_pin(&pin_file_text(&pin)), Some(pin.clone()));
    assert!(auth_frame_ok(&format!("auth {pin}"), &pin));
}

#[test]
fn an_empty_pin_file_holds_none() {
    assert_eq!(stored_pin(""), None);
    assert_eq!(stored_pin(" \r\n\t"), None);
    assert_eq!(stored_pin("  12 34\n"), Some("12 34".to_string()));
}

#[test]
fn the_pin_file_is_in_the_configuration_directory() {
    assert_eq!(pin_path(Some("/x/cfg"), Some("/home/u")), "/x/cfg/cce/cce-remote.pin");
    assert_eq!(pin_path(None, Some("/home/u")), "/home/u/.config/cce/cce-remote.pin");
    assert_eq!(pin_path(None, Some("/home/u/")), "/home/u/.config/cce/cce-remote.pin");
    assert_eq!(pin_path(None, None), "./.config/cce/cce-remote.pin");
    assert_eq!(pin_path(Some(""), None), "cce/cce-remote.pin");
    for (xdg, home) in [(Some("/a/"), None), (None, Some("b")), (Some("c//"), Some("/d"))] {
        let base = match xdg {
            Some(dir) => std::path::PathBuf::from(dir),
            None => std::path::PathBuf::from(home.unwrap_or(".")).join(".config"),
        };
        let std = base.join("cce").join("cce-remote.pin");
        assert_eq!(pin_path(xdg, home), std.to_str().unwrap());
    }
}
