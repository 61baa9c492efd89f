//! The HTTP side: which request is answered how, and the texts of the answers.
use vstd::prelude::*;
use vstd::string::{StringExecFns, StringSliceAdditionalSpecFns};
use crate::digits::{decimal, parse_unsigned, push_decimal, unsigned_of};
use crate::pairing::{an_empty_pin_is_nobodys, header_accepts, header_pin_ok, query_accepts, query_pin_ok};
use crate::text::{begins_with, chars_of, copy_of, starts_with, text_of};

verus! {

pub const DEFAULT_PORT: u16 = 17017;

// ---- requests --------------------------------------------------------------------------------

/// What a request gets.
#[derive(Clone, Copy, PartialEq, Eq, Debug, Structural)]
pub enum Route {
    /// The input WebSocket.
    Socket,
    /// The live view, the PIN having been presented.
    Stream,
    /// One screenshot, the PIN having been presented.
    Shot,
    /// A refusal for want of the PIN.
    Forbidden,
    /// The page.
    Page,
    /// Nothing of that name.
    Missing,
}

/// Whether a request for the live view presents the PIN, in a header or, as an
/// image source cannot send headers, in its query.
pub open spec fn stream_gate(head: Seq<char>, pin: Seq<char>) -> bool {
    header_accepts(head, pin) || query_accepts(head, pin)
}

/// What the request with the given head gets.
pub open spec fn routing(head: Seq<char>, pin: Seq<char>) -> Route {
    if starts_with(head, "GET /ws"@) {
        Route::Socket
    } else if starts_with(head, "GET /stream"@) {
        if stream_gate(head, pin) {
            Route::Stream
        } else {
            Route::Forbidden
        }
    } else if starts_with(head, "GET /shot"@) {
        if header_accepts(head, pin) {
            Route::Shot
        } else {
            Route::Forbidden
        }
    } else if starts_with(head, "GET / "@) || starts_with(head, "GET /index.html "@) {
        Route::Page
    } else {
        Route::Missing
    }
}

/// What the request with the given head gets.
pub fn route(request_head: &str, pin: &str) -> (r: Route)
    ensures
        r == routing(request_head@, pin@),
{
    let h = chars_of(request_head);
    if begins_with(h.as_slice(), "GET /ws") {
        Route::Socket
    } else if begins_with(h.as_slice(), "GET /stream") {
        if header_pin_ok(request_head, pin) || query_pin_ok(request_head, pin) {
            Route::Stream
        } else {
            Route::Forbidden
        }
    } else if begins_with(h.as_slice(), "GET /shot") {
        if header_pin_ok(request_head, pin) {
            Route::Shot
        } else {
            Route::Forbidden
        }
    } else if begins_with(h.as_slice(), "GET / ") || begins_with(h.as_slice(), "GET /index.html ") {
        Route::Page
    } else {
        Route::Missing
    }
}

// ---- answers -----------------------------------------------------------------------------------

/// The whole refusal of a request without the PIN.
pub open spec fn forbidden() -> Seq<char> {
    "HTTP/1.1 403 Forbidden\r\nContent-Length: 0\r\nConnection: close\r\n\r\n"@
}

/// The whole answer where no screenshot could be had.
pub open spec fn unavailable() -> Seq<char> {
    "HTTP/1.1 503 Service Unavailable\r\nContent-Length: 0\r\nConnection: close\r\n\r\n"@
}

/// The head of a live view: parts that each replace the one before.
pub open spec fn stream_opening() -> Seq<char> {
    "HTTP/1.1 200 OK\r\nContent-Type: multipart/x-mixed-replace; boundary=frame\r\nCache-Control: no-store\r\nConnection: close\r\n\r\n"@
}

/// The head of one part of a live view, a JPEG image of `len` bytes.
pub open spec fn part_opening(len: nat) -> Seq<char> {
    "--frame\r\nContent-Type: image/jpeg\r\nContent-Length: "@ + decimal(len) + "\r\n\r\n"@
}

/// The head of a screenshot of `len` bytes, with the window's number, place and size.
pub open spec fn shot_opening(
    id: nat,
    x: Seq<char>,
    y: Seq<char>,
    w: Seq<char>,
    h: Seq<char>,
    len: nat,
) -> Seq<char> {
    "HTTP/1.1 200 OK\r\nContent-Type: image/png\r\nX-Win: "@ + decimal(id) + " "@ + x + " "@ + y
        + " "@ + w + " "@ + h + "\r\nContent-Length: "@ + decimal(len)
        + "\r\nConnection: close\r\n\r\n"@
}

/// A whole answer with an HTML body.
pub open spec fn html_answer(status: Seq<char>, len: nat, body: Seq<char>) -> Seq<char> {
    "HTTP/1.1 "@ + status + "\r\nContent-Type: text/html; charset=utf-8\r\nContent-Length: "@
        + decimal(len) + "\r\nConnection: close\r\n\r\n"@ + body
}

pub fn forbidden_text() -> (r: String)
    ensures
        r@ == forbidden(),
{
    copy_of("HTTP/1.1 403 Forbidden\r\nContent-Length: 0\r\nConnection: close\r\n\r\n")
}

pub fn unavailable_text() -> (r: String)
    ensures
        r@ == unavailable(),
{
    copy_of("HTTP/1.1 503 Service Unavailable\r\nContent-Length: 0\r\nConnection: close\r\n\r\n")
}

pub fn stream_head() -> (r: String)
    ensures
        r@ == stream_opening(),
{
    copy_of(
        "HTTP/1.1 200 OK\r\nContent-Type: multipart/x-mixed-replace; boundary=frame\r\nCache-Control: no-store\r\nConnection: close\r\n\r\n",
    )
}

/// The head of one part of a live view.
pub fn part_head(len: usize) -> (r: String)
    ensures
        r@ == part_opening(len as nat),
{
    let mut out = copy_of("--frame\r\nContent-Type: image/jpeg\r\nContent-Length: ");
    push_decimal(&mut out, len as u64);
    out.append("\r\n\r\n");
    out
}

/// The head of a screenshot; the window's place and size are given as they are to be shown.
pub fn shot_head(id: u64, x: &str, y: &str, w: &str, h: &str, len: usize) -> (r: String)
    ensures
        r@ == shot_opening(id as nat, x@, y@, w@, h@, len as nat),
{
    let mut out = copy_of("HTTP/1.1 200 OK\r\nContent-Type: image/png\r\nX-Win: ");
    push_decimal(&mut out, id);
    out.append(" ");
    out.append(x);
    out.append(" ");
    out.append(y);
    out.append(" ");
    out.append(w);
    out.append(" ");
    out.append(h);
    out.append("\r\nContent-Length: ");
    push_decimal(&mut out, len as u64);
    out.append("\r\nConnection: close\r\n\r\n");
    assert(out@ =~= shot_opening(id as nat, x@, y@, w@, h@, len as nat));
    out
}

/// A whole answer with an HTML body, whose length is counted in bytes of UTF-8.
fn html_text(status: &str, body: &str) -> (r: String)
    requires
        body.spec_bytes().len() <= usize::MAX,
    ensures
        r@ == html_answer(status@, body.spec_bytes().len(), body@),
{
    let len = body.len();
    let mut out = copy_of("HTTP/1.1 ");
    out.append(status);
    out.append("\r\nContent-Type: text/html; charset=utf-8\r\nContent-Length: ");
    push_decimal(&mut out, len as u64);
    out.append("\r\nConnection: close\r\n\r\n");
    out.append(body);
    assert(out@ =~= html_answer(status@, body.spec_bytes().len(), body@));
    out
}

/// The answer to a request for the page.
pub fn page_text(page: &str) -> (r: String)
    requires
        page.spec_bytes().len() <= usize::MAX,
    ensures
        r@ == html_answer("200 OK"@, page.spec_bytes().len(), page@),
{
    html_text("200 OK", page)
}

/// The answer to a request for anything else.
pub fn missing_text() -> (r: String)
    ensures
        r@ == html_answer("404 Not Found"@, 9, "not found"@),
{
    proof {
        reveal_strlit("not found");
        assert(vstd::utf8::is_ascii_chars("not found"@));
        vstd::string::is_ascii_spec_bytes("not found");
    }
    html_text("404 Not Found", "not found")
}

/// What a request is answered at once, and with that in full or, for the live
/// view, before its parts. A WebSocket and a screenshot have to be seen to first.
pub open spec fn answered(r: Route, page: Seq<char>, page_len: nat) -> Option<Seq<char>> {
    match r {
        Route::Forbidden => Some(forbidden()),
        Route::Stream => Some(stream_opening()),
        Route::Page => Some(html_answer("200 OK"@, page_len, page)),
        Route::Missing => Some(html_answer("404 Not Found"@, 9, "not found"@)),
        Route::Socket | Route::Shot => None,
    }
}

/// What a request is answered at once.
pub fn answer(r: Route, page: &str) -> (a: Option<String>)
    requires
        page.spec_bytes().len() <= usize::MAX,
    ensures
        match a {
            Some(text) => answered(r, page@, page.spec_bytes().len()) == Some(text@),
            None => answered(r, page@, page.spec_bytes().len()) is None,
        },
{
    match r {
        Route::Forbidden => Some(forbidden_text()),
        Route::Stream => Some(stream_head()),
        Route::Page => Some(page_text(page)),
        Route::Missing => Some(missing_text()),
        Route::Socket | Route::Shot => None,
    }
}

/// What is told of a screenshot: its window's number, place and size, as they
/// are to be shown, and its bytes.
pub struct Shot {
    pub id: u64,
    pub x: String,
    pub y: String,
    pub w: String,
    pub h: String,
    pub len: usize,
}

/// What a request for a screenshot is answered, before the screenshot's bytes
/// where there is one.
pub open spec fn shot_told(shot: Option<Shot>) -> Seq<char> {
    match shot {
        Some(s) => shot_opening(s.id as nat, s.x@, s.y@, s.w@, s.h@, s.len as nat),
        None => unavailable(),
    }
}

/// What a request for a screenshot is answered, before the screenshot's bytes
/// where there is one.
pub fn shot_answer(shot: &Option<Shot>) -> (r: String)
    ensures
        r@ == (match shot {
            Some(s) => shot_opening(s.id as nat, s.x@, s.y@, s.w@, s.h@, s.len as nat),
            None => unavailable(),
        }),
        r@ == shot_told(*shot),
{
    match shot {
        Some(s) => shot_head(
            s.id,
            s.x.as_str(),
            s.y.as_str(),
            s.w.as_str(),
            s.h.as_str(),
            s.len,
        ),
        None => unavailable_text(),
    }
}

// ---- names -----------------------------------------------------------------------------------------

/// The port that the first argument asks for, or the default one.
pub open spec fn port_choice(arg: Option<Seq<char>>) -> nat {
    match arg {
        Some(a) => match parse_unsigned(a, u16::MAX as nat) {
            Some(port) => port,
            None => DEFAULT_PORT as nat,
        },
        None => DEFAULT_PORT as nat,
    }
}

/// The port to serve on.
pub fn port(arg: Option<&str>) -> (r: u16)
    ensures
        r == port_choice(text_of(arg)),
{
    match arg {
        Some(a) => {
            let c = chars_of(a);
            match unsigned_of(c.as_slice(), u16::MAX as u32) {
                Some(p) => p as u16,
                None => DEFAULT_PORT,
            }
        },
        None => DEFAULT_PORT,
    }
}

pub open spec fn display_name(display: Option<Seq<char>>) -> Seq<char> {
    match display {
        Some(d) => d,
        None => "wayland-0"@,
    }
}

pub open spec fn control_socket(display: Option<Seq<char>>) -> Seq<char> {
    "/tmp/cce-"@ + display_name(display) + ".sock"@
}

pub open spec fn stream_socket(display: Option<Seq<char>>) -> Seq<char> {
    "/tmp/cce-stream-"@ + display_name(display) + ".sock"@
}

fn socket_name(head: &str, display: Option<&str>) -> (r: String)
    ensures
        r@ == head@ + display_name(text_of(display)) + ".sock"@,
{
    let mut out = copy_of(head);
    match display {
        Some(d) => out.append(d),
        None => out.append("wayland-0"),
    }
    out.append(".sock");
    out
}

/// The compositor's control socket, by the value of `WAYLAND_DISPLAY`.
pub fn control_socket_path(display: Option<&str>) -> (r: String)
    ensures
        r@ == control_socket(text_of(display)),
{
    socket_name("/tmp/cce-", display)
}

/// The compositor's window-stream socket, by the value of `WAYLAND_DISPLAY`.
pub fn stream_socket_path(display: Option<&str>) -> (r: String)
    ensures
        r@ == stream_socket(text_of(display)),
{
    socket_name("/tmp/cce-stream-", display)
}

// ---- laws -------------------------------------------------------------------------------------------

/// The live view and the screenshot are gated by the PIN, the screenshot by the
/// header alone: a PIN in the URL does not open it.
pub proof fn gates_ask_for_the_pin(head: Seq<char>, pin: Seq<char>)
    ensures
        routing(head, pin) == Route::Shot ==> header_accepts(head, pin),
        routing(head, pin) == Route::Stream ==> header_accepts(head, pin) || query_accepts(
            head,
            pin,
        ),
{
}

/// A request for the screenshot gets it if a header carries the PIN, one for the
/// live view gets it if a header or the query does, and either is refused
/// otherwise.
pub proof fn a_gate_opens_or_refuses(head: Seq<char>, pin: Seq<char>)
    ensures
        starts_with(head, "GET /shot"@) ==> routing(head, pin) == (if header_accepts(head, pin) {
            Route::Shot
        } else {
            Route::Forbidden
        }),
        starts_with(head, "GET /stream"@) ==> routing(head, pin) == (if header_accepts(head, pin)
            || query_accepts(head, pin) {
            Route::Stream
        } else {
            Route::Forbidden
        }),
{
    reveal_strlit("GET /ws");
    reveal_strlit("GET /shot");
    reveal_strlit("GET /stream");
    if starts_with(head, "GET /shot"@) {
        assert(head.take(9)[5] == 's' && head.take(9)[6] == 'h');
        assert(head[5] == 's' && head[6] == 'h');
    }
    if starts_with(head, "GET /stream"@) {
        assert(head.take(11)[5] == 's');
        assert(head[5] == 's');
    }
    if starts_with(head, "GET /ws"@) {
        assert(head.take(7)[5] == 'w');
        assert(head[5] == 'w');
    }
    if starts_with(head, "GET /shot"@) && starts_with(head, "GET /stream"@) {
        assert(head.take(11)[6] == 't');
        assert(head[6] == 't');
    }
}

/// A request for the screenshot or the live view that does not present the PIN
/// is told that it is forbidden, and nothing else.
pub proof fn a_request_without_the_pin_is_told_so(
    head: Seq<char>,
    pin: Seq<char>,
    page: Seq<char>,
    page_len: nat,
)
    requires
        !header_accepts(head, pin),
        starts_with(head, "GET /shot"@) || (starts_with(head, "GET /stream"@) && !query_accepts(
            head,
            pin,
        )),
    ensures
        answered(routing(head, pin), page, page_len) == Some(forbidden()),
{
    a_gate_opens_or_refuses(head, pin);
}

/// With an empty PIN, neither gate opens for any request.
pub proof fn an_empty_pin_opens_no_gate(head: Seq<char>)
    ensures
        routing(head, seq![]) != Route::Shot,
        routing(head, seq![]) != Route::Stream,
{
    an_empty_pin_is_nobodys(head);
}

} // verus!
