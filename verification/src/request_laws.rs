//! What requests and frames are answered, told from their texts.
use vstd::prelude::*;
use crate::command::translation;
use crate::digits::{all_digits, decimal, numeral, parse_unsigned};
use crate::http::{
    Route, Shot, answered, control_socket, html_answer, part_opening, port_choice, routing,
    shot_opening, shot_told, stream_socket,
};
use crate::number_laws::decimals_are_plain;
use crate::pairing::auth_accepts;
use crate::pairing_laws::{auth_and_the_pin_pair, only_auth_and_the_pin_pair};
use crate::session::{Deed, Phase, Read, commands_of, forwarded, reaction, told};
use crate::text::starts_with;
use crate::windows::{pointer_message, window_list};
use crate::word_laws::{
    all_blank, every_text_is_its_trimming_in_white_space, solid,
    trimming_drops_the_white_space_around,
};
use crate::words::trim;

verus! {

// ---- routes -------------------------------------------------------------------------------------

proof fn lemma_prefix(p: Seq<char>, rest: Seq<char>)
    ensures
        starts_with(p + rest, p),
{
    assert((p + rest).take(p.len() as int) =~= p);
}

/// Requests go where their first line says: to the WebSocket, or to the page
/// under either of its names, whatever follows and whatever the PIN.
pub proof fn requests_go_where_they_ask(rest: Seq<char>, pin: Seq<char>)
    ensures
        routing("GET /ws"@ + rest, pin) == Route::Socket,
        routing("GET / "@ + rest, pin) == Route::Page,
        routing("GET /index.html "@ + rest, pin) == Route::Page,
{
    reveal_strlit("GET /ws");
    reveal_strlit("GET /stream");
    reveal_strlit("GET /shot");
    reveal_strlit("GET / ");
    reveal_strlit("GET /index.html ");
    lemma_prefix("GET /ws"@, rest);
    lemma_prefix("GET / "@, rest);
    lemma_prefix("GET /index.html "@, rest);
    let a = "GET / "@ + rest;
    let b = "GET /index.html "@ + rest;
    assert(a[5] == ' ' && b[5] == 'i');
    lemma_sixth(a, ' ');
    lemma_sixth(b, 'i');
}

proof fn lemma_sixth(head: Seq<char>, c: char)
    requires
        head.len() > 5,
        head[5] == c,
        c != 's',
        c != 'w',
    ensures
        !starts_with(head, "GET /ws"@),
        !starts_with(head, "GET /stream"@),
        !starts_with(head, "GET /shot"@),
{
    reveal_strlit("GET /ws");
    reveal_strlit("GET /stream");
    reveal_strlit("GET /shot");
    assert("GET /ws"@[5] == 'w' && "GET /stream"@[5] == 's' && "GET /shot"@[5] == 's');
    if head.len() >= 7 {
        assert(head.take(7)[5] == c);
    }
    if head.len() >= 11 {
        assert(head.take(11)[5] == c);
    }
    if head.len() >= 9 {
        assert(head.take(9)[5] == c);
    }
}

/// A request for anything else finds nothing.
pub proof fn other_requests_find_nothing(head: Seq<char>, pin: Seq<char>)
    requires
        forall|rest: Seq<char>| head != #[trigger] ("GET /ws"@ + rest),
        forall|rest: Seq<char>| head != #[trigger] ("GET /stream"@ + rest),
        forall|rest: Seq<char>| head != #[trigger] ("GET /shot"@ + rest),
        forall|rest: Seq<char>| head != #[trigger] ("GET / "@ + rest),
        forall|rest: Seq<char>| head != #[trigger] ("GET /index.html "@ + rest),
    ensures
        routing(head, pin) == Route::Missing,
{
    lemma_no_prefix(head, "GET /ws"@);
    lemma_no_prefix(head, "GET /stream"@);
    lemma_no_prefix(head, "GET /shot"@);
    lemma_no_prefix(head, "GET / "@);
    lemma_no_prefix(head, "GET /index.html "@);
}

proof fn lemma_no_prefix(head: Seq<char>, p: Seq<char>)
    requires
        forall|rest: Seq<char>| head != #[trigger] (p + rest),
    ensures
        !starts_with(head, p),
{
    if starts_with(head, p) {
        let rest = head.skip(p.len() as int);
        assert(head =~= p + rest);
    }
}

// ---- answers ------------------------------------------------------------------------------------

/// The page is sent whole, under a length that counts its bytes.
pub proof fn the_page_is_sent_whole(page: Seq<char>, len: nat) -> (head: Seq<char>)
    ensures
        answered(Route::Page, page, len) == Some(head + page),
        head == "HTTP/1.1 200 OK\r\nContent-Type: text/html; charset=utf-8\r\nContent-Length: "@
            + decimal(len) + "\r\nConnection: close\r\n\r\n"@,
        all_digits(decimal(len)) && numeral(decimal(len)) == len,
{
    decimals_are_plain(len);
    reveal_strlit("HTTP/1.1 ");
    reveal_strlit("200 OK");
    reveal_strlit("\r\nContent-Type: text/html; charset=utf-8\r\nContent-Length: ");
    reveal_strlit("HTTP/1.1 200 OK\r\nContent-Type: text/html; charset=utf-8\r\nContent-Length: ");
    let head = "HTTP/1.1 200 OK\r\nContent-Type: text/html; charset=utf-8\r\nContent-Length: "@
        + decimal(len) + "\r\nConnection: close\r\n\r\n"@;
    assert(html_answer("200 OK"@, len, page) =~= head + page);
    head
}

/// The answer to a request for a screenshot names the window, its place and its
/// size in this order, then the length; without a screenshot it is a refusal.
pub proof fn a_screenshot_is_told_with_its_window(s: Shot)
    ensures
        shot_told(Some(s)) == "HTTP/1.1 200 OK\r\nContent-Type: image/png\r\nX-Win: "@ + decimal(
            s.id as nat,
        ) + seq![' '] + s.x@ + seq![' '] + s.y@ + seq![' '] + s.w@ + seq![' '] + s.h@
            + "\r\nContent-Length: "@ + decimal(s.len as nat) + "\r\nConnection: close\r\n\r\n"@,
        shot_told(None)
            == "HTTP/1.1 503 Service Unavailable\r\nContent-Length: 0\r\nConnection: close\r\n\r\n"@,
{
    heads_give_their_numbers(s.id as nat, s.x@, s.y@, s.w@, s.h@, s.len as nat);
}

/// Each route is answered in its own way: a refusal and a page that is missing in
/// full, the live view by a head that has each part replace the one before, and a
/// WebSocket and a screenshot by nothing yet.
pub proof fn each_route_is_answered_in_its_way(page: Seq<char>, len: nat)
    ensures
        answered(Route::Forbidden, page, len) == Some(
            "HTTP/1.1 403 Forbidden\r\nContent-Length: 0\r\nConnection: close\r\n\r\n"@,
        ),
        answered(Route::Stream, page, len) == Some(
            "HTTP/1.1 200 OK\r\nContent-Type: multipart/x-mixed-replace; boundary=frame\r\nCache-Control: no-store\r\nConnection: close\r\n\r\n"@,
        ),
        answered(Route::Missing, page, len) == Some(
            html_answer("404 Not Found"@, 9, "not found"@),
        ),
        answered(Route::Socket, page, len) is None,
        answered(Route::Shot, page, len) is None,
{
}

/// The head of a part gives the length of its image, and the head of a screenshot
/// the window's own numbers, in their order, and the length.
pub proof fn heads_give_their_numbers(
    id: nat,
    x: Seq<char>,
    y: Seq<char>,
    w: Seq<char>,
    h: Seq<char>,
    len: nat,
)
    ensures
        part_opening(len) == "--frame\r\nContent-Type: image/jpeg\r\nContent-Length: "@ + decimal(
            len,
        ) + "\r\n\r\n"@,
        shot_opening(id, x, y, w, h, len)
            == "HTTP/1.1 200 OK\r\nContent-Type: image/png\r\nX-Win: "@ + decimal(id) + seq![' '] + x
            + seq![' '] + y + seq![' '] + w + seq![' '] + h + "\r\nContent-Length: "@ + decimal(len)
            + "\r\nConnection: close\r\n\r\n"@,
        numeral(decimal(len)) == len && all_digits(decimal(len)),
        numeral(decimal(id)) == id && all_digits(decimal(id)),
{
    decimals_are_plain(len);
    decimals_are_plain(id);
    reveal_strlit(" ");
    assert(" "@ =~= seq![' ']);
}

/// The port is the argument's number if that is one of a port, and else the
/// default.
pub proof fn the_port_is_the_argument_or_the_default(arg: Seq<char>)
    ensures
        arg.len() > 0 && all_digits(arg) && numeral(arg) < 65536 ==> port_choice(Some(arg))
            == numeral(arg),
        parse_unsigned(arg, 65535) is None ==> port_choice(Some(arg)) == 17017,
        port_choice(None) == 17017,
{
    if arg.len() > 0 && all_digits(arg) {
        assert(crate::text::is_digit(arg[0]));
    }
}

/// The sockets are named after the display, which is `wayland-0` where none is
/// named.
pub proof fn sockets_are_named_after_the_display(display: Seq<char>)
    ensures
        control_socket(Some(display)) == "/tmp/cce-"@ + display + ".sock"@,
        stream_socket(Some(display)) == "/tmp/cce-stream-"@ + display + ".sock"@,
        control_socket(None) == "/tmp/cce-wayland-0.sock"@,
        stream_socket(None) == "/tmp/cce-stream-wayland-0.sock"@,
{
    reveal_strlit("/tmp/cce-");
    reveal_strlit("/tmp/cce-stream-");
    reveal_strlit(".sock");
    reveal_strlit("wayland-0");
    reveal_strlit("/tmp/cce-wayland-0.sock");
    reveal_strlit("/tmp/cce-stream-wayland-0.sock");
    assert(control_socket(None) =~= "/tmp/cce-wayland-0.sock"@);
    assert(stream_socket(None) =~= "/tmp/cce-stream-wayland-0.sock"@);
}

// ---- the first frame ----------------------------------------------------------------------------

/// The first frame opens the connection if it is `auth `, white space, the PIN
/// and white space, and is welcomed.
pub proof fn auth_and_the_pin_open_the_connection(a: Seq<char>, pin: Seq<char>, b: Seq<char>)
    requires
        all_blank(a),
        all_blank(b),
        solid(pin),
        pin.len() > 0,
    ensures
        reaction(Phase::Pairing, Read::Text("auth "@ + a + pin + b), pin) == (
            Phase::Open,
            Deed::Welcome,
        ),
{
    auth_and_the_pin_pair(a, pin, b);
}

/// Nothing else opens it: a connection that is not over after its first read has
/// read just that. Any other read is refused.
pub proof fn only_auth_and_the_pin_open_the_connection(read: Read, pin: Seq<char>) -> (r: (
    Seq<char>,
    Seq<char>,
))
    ensures
        reaction(Phase::Pairing, read, pin) == (Phase::Open, Deed::Welcome) || reaction(
            Phase::Pairing,
            read,
            pin,
        ) == (Phase::Closed, Deed::Refuse),
        reaction(Phase::Pairing, read, pin).0 == Phase::Open ==> all_blank(r.0) && all_blank(r.1)
            && pin.len() > 0 && solid(pin) && read == Read::Text("auth "@ + r.0 + pin + r.1),
{
    match read {
        Read::Text(frame) => if auth_accepts(frame, pin) {
            only_auth_and_the_pin_pair(frame, pin)
        } else {
            (Seq::<char>::empty(), Seq::<char>::empty())
        },
        _ => (Seq::<char>::empty(), Seq::<char>::empty()),
    }
}

// ---- frames of an open connection ---------------------------------------------------------------

/// `wl` and `pl`, in white space, ask for the windows and the pointer: each sends
/// its one fixed question and is told what the reply comes to.
pub proof fn two_frames_are_questions(
    a: Seq<char>,
    b: Seq<char>,
    pin: Seq<char>,
    reply: Seq<char>,
)
    requires
        all_blank(a),
        all_blank(b),
    ensures
        ({
            let (phase, deed) = reaction(Phase::Open, Read::Text(a + "wl"@ + b), pin);
            &&& phase == Phase::Open
            &&& commands_of(deed) == seq!["windows --json"@]
            &&& told(deed, Some(reply)) == Some(window_list(reply))
            &&& told(deed, None) == Some(window_list(Seq::<char>::empty()))
        }),
        ({
            let (phase, deed) = reaction(Phase::Open, Read::Text(a + "pl"@ + b), pin);
            &&& phase == Phase::Open
            &&& commands_of(deed) == seq!["pointer-location"@]
            &&& told(deed, Some(reply)) == pointer_message(reply)
            &&& told(deed, None) is None
        }),
{
    reveal_strlit("wl");
    reveal_strlit("pl");
    assert("wl"@[0] == 'w' && "wl"@.last() == 'l' && "pl"@[0] == 'p' && "pl"@.last() == 'l');
    trimming_drops_the_white_space_around(a, "wl"@, b);
    trimming_drops_the_white_space_around(a, "pl"@, b);
}

/// Any other text sends what it means, all of it and in order, or nothing; the
/// page is told nothing, and the connection stays open.
pub proof fn other_frames_send_what_they_mean(
    text: Seq<char>,
    pin: Seq<char>,
    reply: Option<Seq<char>>,
)
    requires
        forall|a: Seq<char>, b: Seq<char>|
            all_blank(a) && all_blank(b) ==> text != #[trigger] (a + "wl"@ + b),
        forall|a: Seq<char>, b: Seq<char>|
            all_blank(a) && all_blank(b) ==> text != #[trigger] (a + "pl"@ + b),
    ensures
        ({
            let (phase, deed) = reaction(Phase::Open, Read::Text(text), pin);
            &&& phase == Phase::Open
            &&& translation(text) is Some ==> commands_of(deed) == translation(text)->0
            &&& translation(text) is None ==> commands_of(deed) == Seq::<Seq<char>>::empty()
            &&& told(deed, reply) is None
        }),
{
    let (a, b) = every_text_is_its_trimming_in_white_space(text);
    assert(text == a + trim(text) + b);
    if trim(text) == "wl"@ {
        assert(text == a + "wl"@ + b);
    }
    if trim(text) == "pl"@ {
        assert(text == a + "pl"@ + b);
    }
}

/// Frames of another kind are read past; a read that fails ends the connection,
/// with nothing sent to anyone.
pub proof fn other_reads_send_nothing(pin: Seq<char>, reply: Option<Seq<char>>)
    ensures
        reaction(Phase::Open, Read::Other, pin).0 == Phase::Open,
        commands_of(reaction(Phase::Open, Read::Other, pin).1) == Seq::<Seq<char>>::empty(),
        told(reaction(Phase::Open, Read::Other, pin).1, reply) is None,
        reaction(Phase::Open, Read::Failed, pin).0 == Phase::Closed,
        commands_of(reaction(Phase::Open, Read::Failed, pin).1) == Seq::<Seq<char>>::empty(),
        told(reaction(Phase::Open, Read::Failed, pin).1, reply) is None,
{
}

/// An open connection sends the commands of its reads one after another: those
/// of some reads and then those of the rest, as long as no read failed; after one
/// that did, none.
pub proof fn commands_add_up(a: Seq<Read>, b: Seq<Read>, pin: Seq<char>)
    requires
        forall|i: int| 0 <= i < a.len() ==> !(#[trigger] a[i] is Failed),
    ensures
        forwarded(Phase::Open, a + b, pin) == forwarded(Phase::Open, a, pin) + forwarded(
            Phase::Open,
            b,
            pin,
        ),
        b.len() > 0 && b[0] is Failed ==> forwarded(Phase::Open, b, pin) == Seq::<
            Seq<char>,
        >::empty(),
    decreases a.len(),
{
    if b.len() > 0 && b[0] is Failed {
        crate::session::a_closed_connection_is_silent(b.drop_first(), pin);
        assert(forwarded(Phase::Open, b, pin) =~= Seq::<Seq<char>>::empty());
    }
    if a.len() == 0 {
        assert(a + b =~= b);
        assert(forwarded(Phase::Open, a, pin) + forwarded(Phase::Open, b, pin) =~= forwarded(
            Phase::Open,
            b,
            pin,
        ));
    } else {
        assert(!(a[0] is Failed));
        assert((a + b)[0] == a[0]);
        assert((a + b).drop_first() =~= a.drop_first() + b);
        assert forall|i: int| 0 <= i < a.drop_first().len() implies !(
        #[trigger] a.drop_first()[i] is Failed) by {
            assert(a.drop_first()[i] == a[i + 1]);
        }
        commands_add_up(a.drop_first(), b, pin);
        let c = commands_of(reaction(Phase::Open, a[0], pin).1);
        assert(forwarded(Phase::Open, a + b, pin) =~= c + (forwarded(
            Phase::Open,
            a.drop_first(),
            pin,
        ) + forwarded(Phase::Open, b, pin)));
    }
}

} // verus!
