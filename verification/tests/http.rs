//! Requests and answers.
use cce_remote::http::{
    DEFAULT_PORT, Route, Shot, answer, control_socket_path, forbidden_text, missing_text, page_text, part_head,
    port, route, shot_answer, shot_head, stream_head, stream_socket_path, unavailable_text,
};

const PIN: &str = "123456";

#[test]
fn requests_are_routed() {
    for (head, to) in [
        ("GET /ws HTTP/1.1\r\n\r\n", Route::Socket),
        ("GET / HTTP/1.1\r\n\r\n", Route::Page),
        ("GET /index.html HTTP/1.1\r\n\r\n", Route::Page),
        ("GET /other HTTP/1.1\r\n\r\n", Route::Missing),
        ("POST / HTTP/1.1\r\n\r\n", Route::Missing),
        ("", Route::Missing),
        ("GET /stream HTTP/1.1\r\n\r\n", Route::Forbidden),
        ("GET /stream?pin=123456 HTTP/1.1\r\n\r\n", Route::Stream),
        ("GET /stream HTTP/1.1\r\nX-Pin: 123456\r\n\r\n", Route::Stream),
        ("GET /shot HTTP/1.1\r\n\r\n", Route::Forbidden),
        ("GET /shot?pin=123456 HTTP/1.1\r\n\r\n", Route::Forbidden),
        ("GET /shot HTTP/1.1\r\nx-pin:123456\r\n\r\n", Route::Shot),
    ] {
        assert_eq!(route(head, PIN), to, "{head:?}");
    }
}

#[test]
fn an_empty_pin_opens_neither_gate() {
    assert_eq!(route("GET /stream?pin= HTTP/1.1\r\nX-Pin:\r\n\r\n", ""), Route::Forbidden);
    assert_eq!(route("GET /shot HTTP/1.1\r\nX-Pin:\r\n\r\n", ""), Route::Forbidden);
}

#[test]
fn answers_are_exact() {
    assert_eq!(
        forbidden_text(),
        "HTTP/1.1 403 Forbidden\r\nContent-Length: 0\r\nConnection: close\r\n\r\n"
    );
    assert_eq!(
        unavailable_text(),
        "HTTP/1.1 503 Service Unavailable\r\nContent-Length: 0\r\nConnection: close\r\n\r\n"
    );
    assert_eq!(
        stream_head(),
        "HTTP/1.1 200 OK\r\nContent-Type: multipart/x-mixed-replace; boundary=frame\r\nCache-Control: no-store\r\nConnection: close\r\n\r\n"
    );
    assert_eq!(
        part_head(1234),
        "--frame\r\nContent-Type: image/jpeg\r\nContent-Length: 1234\r\n\r\n"
    );
    assert_eq!(
        shot_head(12, "-10.75", "20", "640", "480", 99),
        "HTTP/1.1 200 OK\r\nContent-Type: image/png\r\nX-Win: 12 -10.75 20 640 480\r\nContent-Length: 99\r\nConnection: close\r\n\r\n"
    );
    // The length counts bytes, not characters.
    assert_eq!(
        page_text("\u{e9}\u{1f600}"),
        "HTTP/1.1 200 OK\r\nContent-Type: text/html; charset=utf-8\r\nContent-Length: 6\r\nConnection: close\r\n\r\n\u{e9}\u{1f600}"
    );
    assert_eq!(
        missing_text(),
        "HTTP/1.1 404 Not Found\r\nContent-Type: text/html; charset=utf-8\r\nContent-Length: 9\r\nConnection: close\r\n\r\nnot found"
    );
}

#[test]
fn the_port_is_the_argument_or_the_default() {
    assert_eq!(DEFAULT_PORT, 17017);
    assert_eq!(port(None), 17017);
    assert_eq!(port(Some("8080")), 8080);
    assert_eq!(port(Some("+80")), 80);
    assert_eq!(port(Some("65535")), 65535);
    for bad in ["65536", "-1", "", "http", "80 "] {
        assert_eq!(port(Some(bad)), 17017, "{bad:?}");
    }
}

#[test]
fn sockets_are_named_after_the_display() {
    assert_eq!(control_socket_path(Some("wayland-1")), "/tmp/cce-wayland-1.sock");
    assert_eq!(control_socket_path(None), "/tmp/cce-wayland-0.sock");
    assert_eq!(stream_socket_path(Some("x")), "/tmp/cce-stream-x.sock");
    assert_eq!(stream_socket_path(None), "/tmp/cce-stream-wayland-0.sock");
}

#[test]
fn each_route_has_its_answer() {
    assert_eq!(answer(Route::Forbidden, "x"), Some(forbidden_text()));
    assert_eq!(answer(Route::Stream, "x"), Some(stream_head()));
    assert_eq!(answer(Route::Page, "x"), Some(page_text("x")));
    assert_eq!(answer(Route::Missing, "x"), Some(missing_text()));
    assert_eq!(answer(Route::Socket, "x"), None);
    assert_eq!(answer(Route::Shot, "x"), None);
    // From the request to its refusal.
    let refused = route("GET /shot?pin=123456 HTTP/1.1\r\n\r\n", PIN);
    assert_eq!(answer(refused, "x"), Some(forbidden_text()));
}

#[test]
fn a_screenshot_is_answered_or_unavailable() {
    let t = |s: &str| s.to_string();
    let shot = Shot { id: 7, x: t("1"), y: t("2.5"), w: t("30"), h: t("40"), len: 5 };
    assert_eq!(shot_answer(&Some(shot)), shot_head(7, "1", "2.5", "30", "40", 5));
    assert_eq!(shot_answer(&None), unavailable_text());
}
