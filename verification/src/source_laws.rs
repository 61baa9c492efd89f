//! What each source of frames does, told from what it sees.
use vstd::prelude::*;
use crate::digits::{all_digits, decimal, numeral, parse_unsigned};
use crate::number_laws::decimals_are_plain;
use crate::payload::Frame;
use crate::producer::{
    Aim, Job, Pacing, Sequel, Source, aimed, filled, followed, grab, grim_arguments, grim_frame,
    grim_part, grim_turn, is_jpeg, next_best, next_tick, outcome, paced, shot, streamed, taken,
    turned, unaimed, unpaced,
};
use crate::screencopy::{
    BufferMeta, CapState, CaptureEvent, CaptureMove, NEGOTIATION_WAIT, PixelFormat, Waiting,
    buffer_bytes, captured_frame, copy_taken, is_copied, is_offered, learned, learned_all,
    offer_taken, rgb_places, shm_file, waits,
};
use crate::stream::Latest;
use crate::text::Blanks;
use crate::windows::{Rect, focus_rect, geometry};
use crate::winstream::{
    Header, MAX_FRAME_BYTES, SILENCE_SECONDS, announced, complaint, rgba_frame, saturated,
};
use crate::words::words;

verus! {

// ---- the window stream --------------------------------------------------------------------------

/// A line announces a frame if its first four words are `frame`, a width, a
/// height and a length, and the length is four bytes a pixel, 64 MiB at most. It
/// is bad if a number is missing or no number, implausible if the length is
/// another, and skipped if it begins otherwise.
pub proof fn lines_announce_what_they_say(line: Seq<char>)
    requires
        line.len() > 0,
    ensures
        ({
            let t = words(Blanks::Ascii, line);
            let named = t.len() > 0 && t[0] == "frame"@;
            let max = 0xffff_ffff as nat;
            let numbered = t.len() >= 4 && parse_unsigned(t[1], max) is Some && parse_unsigned(
                t[2],
                max,
            ) is Some && parse_unsigned(t[3], max) is Some;
            let (w, h, n) = (
                parse_unsigned(t[1], max)->0,
                parse_unsigned(t[2], max)->0,
                parse_unsigned(t[3], max)->0,
            );
            &&& !named ==> announced(line) == Header::Skip
            &&& named && !numbered ==> announced(line) == Header::Bad
            &&& named && numbered && n == 4 * (w * h) && n <= 67_108_864 ==> announced(line) == (
            Header::Frame { w: w as u32, h: h as u32, len: n as u32 })
            &&& named && numbered && (n != 4 * (w * h) || n > 67_108_864) ==> announced(line)
                == Header::Implausible
        }),
{
    let t = words(Blanks::Ascii, line);
    let max = 0xffff_ffff as nat;
    let (w, h, n) = (
        parse_unsigned(t[1], max)->0,
        parse_unsigned(t[2], max)->0,
        parse_unsigned(t[3], max)->0,
    );
    assert(w * h >= 0) by (nonlinear_arith);
    assert(saturated(saturated(w * h) * 4) == saturated(4 * (w * h)));
}

/// An empty line is the end of the stream, and each fault is reported with the
/// line.
pub proof fn faults_are_reported_with_the_line(quoted: Seq<char>)
    ensures
        announced(Seq::<char>::empty()) == Header::End,
        complaint(Header::End, quoted) == Some("stream socket closed"@),
        complaint(Header::Bad, quoted) == Some("bad frame header: "@ + quoted),
        complaint(Header::Implausible, quoted) == Some("implausible frame: "@ + quoted),
        complaint(Header::Skip, quoted) is None,
        forall|w: u32, h: u32, len: u32|
            complaint(#[trigger] frame_header(w, h, len), quoted) is None,
{
}

/// The header of a frame.
pub open spec fn frame_header(w: u32, h: u32, len: u32) -> Header {
    Header::Frame { w, h, len }
}

/// A frame of the stream keeps its size and bytes; its rows follow each other
/// without gaps, four bytes a pixel, red first, then green, then blue.
pub proof fn stream_frames_are_rgba(w: u32, h: u32, data: Seq<u8>)
    requires
        4 * w <= u32::MAX,
    ensures
        rgba_frame(w, h, data) == (Frame::Raw {
            data,
            w,
            h,
            stride: (w + w + w + w) as u32,
            rgb: (0usize, 1usize, 2usize),
        }),
{
}

// ---- captures -----------------------------------------------------------------------------------

/// The flags are the events: each is set once its event has come, and not before.
pub proof fn flags_are_events(events: Seq<CaptureEvent>)
    ensures
        ({
            let s = learned_all(CapState::unknown(), events);
            &&& s.buffer_done == events.contains(CaptureEvent::BufferDone)
            &&& s.ready == events.contains(CaptureEvent::Ready)
            &&& s.failed == events.contains(CaptureEvent::Failed)
        }),
    decreases events.len(),
{
    if events.len() > 0 {
        let front = events.drop_last();
        flags_are_events(front);
        assert(events =~= front.push(events.last()));
        lemma_contains_push(front, events.last(), CaptureEvent::BufferDone);
        lemma_contains_push(front, events.last(), CaptureEvent::Ready);
        lemma_contains_push(front, events.last(), CaptureEvent::Failed);
    }
}

proof fn lemma_contains_push(s: Seq<CaptureEvent>, x: CaptureEvent, e: CaptureEvent)
    ensures
        s.push(x).contains(e) == (s.contains(e) || x == e),
{
    if s.contains(e) {
        let i = choose|i: int| 0 <= i < s.len() && s[i] == e;
        assert(s.push(x)[i] == e);
    }
    if x == e {
        assert(s.push(x)[s.len() as int] == e);
    }
    if s.push(x).contains(e) {
        let i = choose|i: int| 0 <= i < s.push(x).len() && s.push(x)[i] == e;
        if i < s.len() {
            assert(s[i] == e);
        }
    }
}

/// The wait for a buffer is over once all were named or the frame failed, and
/// that for the copy once it was made or the frame failed; not before.
pub proof fn waits_end_by_events(events: Seq<CaptureEvent>)
    ensures
        is_offered(learned_all(CapState::unknown(), events)) == (events.contains(
            CaptureEvent::BufferDone,
        ) || events.contains(CaptureEvent::Failed)),
        is_copied(learned_all(CapState::unknown(), events)) == (events.contains(CaptureEvent::Ready)
            || events.contains(CaptureEvent::Failed)),
{
    flags_are_events(events);
}

/// A buffer has one stride of bytes for each of its rows, whatever its width and
/// format.
pub proof fn a_buffer_has_a_stride_for_each_row(m: BufferMeta, n: BufferMeta)
    ensures
        m.h == 0 ==> buffer_bytes(m) == 0,
        n.stride == m.stride && n.h == m.h + 1 ==> buffer_bytes(n) == buffer_bytes(m) + m.stride,
        n.stride == m.stride && n.h == m.h ==> buffer_bytes(n) == buffer_bytes(m),
{
    assert(m.stride * m.h >= 0) by (nonlinear_arith)
        requires
            m.stride >= 0,
            m.h >= 0,
    ;
    assert(m.stride * (m.h + 1) == m.stride * m.h + m.stride) by (nonlinear_arith);
}

/// The buffer is the last one that was named in a known format: one that comes
/// later takes its place, one in another format does not, and no other event
/// does.
pub proof fn the_last_known_buffer_counts(s: CapState, m: BufferMeta, e: CaptureEvent)
    ensures
        m.format == PixelFormat::Xrgb8888 || m.format == PixelFormat::Argb8888 || m.format
            == PixelFormat::Xbgr8888 || m.format == PixelFormat::Abgr8888 ==> learned(
            s,
            CaptureEvent::Buffer(m),
        ).buffer_meta == Some(m),
        m.format == PixelFormat::Other ==> learned(s, CaptureEvent::Buffer(m)) == s,
        !(e is Buffer) ==> learned(s, e).buffer_meta == s.buffer_meta,
        CapState::unknown().buffer_meta is None,
{
}

/// A frame is copied if a buffer was named in time and nothing failed: to that
/// very buffer, the one that is there if it is the same, and with damage if that
/// was asked for. Otherwise it is done without, or given up with its reason.
pub proof fn offers_are_taken_in_time(
    s: CapState,
    in_time: bool,
    current: Option<BufferMeta>,
    use_damage: bool,
)
    ensures
        s.buffer_meta is None ==> offer_taken(s, in_time, current, use_damage) == CaptureMove::Fail(
            "no usable shm format offered"@,
        ),
        s.buffer_meta is Some && s.failed ==> offer_taken(s, in_time, current, use_damage)
            == CaptureMove::Fail("capture failed"@),
        s.buffer_meta is Some && !s.failed && !in_time ==> offer_taken(
            s,
            in_time,
            current,
            use_damage,
        ) == CaptureMove::Nothing,
        s.buffer_meta is Some && !s.failed && in_time ==> ({
            let taken = offer_taken(s, in_time, current, use_damage);
            &&& taken is Copy
            &&& taken->buffer == s.buffer_meta->0
            &&& taken->keep == (current == s.buffer_meta)
            &&& taken->damage == use_damage
        }),
{
}

/// A copy is taken if it came in time and nothing failed.
pub proof fn copies_are_taken_in_time(s: CapState, in_time: bool, buffer: BufferMeta)
    ensures
        s.failed ==> copy_taken(s, in_time, buffer) == CaptureMove::Fail("copy failed"@),
        !s.failed && !in_time ==> copy_taken(s, in_time, buffer) == CaptureMove::Nothing,
        !s.failed && in_time ==> copy_taken(s, in_time, buffer) == CaptureMove::Take(buffer),
{
}

/// A wait ends when what it waits for has come, or its time is up; till then it
/// polls for as many whole milliseconds as are left, one at least and two hundred
/// at most.
pub proof fn waits_end_in_time(left: nat)
    ensures
        waits(true, left) == Waiting::Done,
        waits(false, 0) == Waiting::Expired,
        left > 0 ==> ({
            let w = waits(false, left);
            &&& w is Poll
            &&& 1 <= w->Poll_0 <= 200
            &&& 1 < w->Poll_0 ==> w->Poll_0 * 1_000_000 <= left
            &&& w->Poll_0 < 200 ==> left < (w->Poll_0 + 1) * 1_000_000
        }),
{
}

/// A copied frame keeps its size, rows and bytes; the colours stand where its
/// format puts them, blue first in the first two formats and red first in the
/// others.
pub proof fn captures_keep_their_pixels(m: BufferMeta, data: Seq<u8>)
    ensures
        captured_frame(m, data) == (Frame::Raw {
            data,
            w: m.w,
            h: m.h,
            stride: m.stride,
            rgb: rgb_places(m.format),
        }),
        m.format == PixelFormat::Xrgb8888 || m.format == PixelFormat::Argb8888 ==> rgb_places(
            m.format,
        ) == (2usize, 1usize, 0usize),
        m.format == PixelFormat::Xbgr8888 || m.format == PixelFormat::Abgr8888 ==> rgb_places(
            m.format,
        ) == (0usize, 1usize, 2usize),
{
}

/// Shared memory is named after the process, in `/dev/shm` where that is.
pub proof fn shared_memory_is_named_after_the_process(pid: nat)
    ensures
        shm_file(true, pid) == "/dev/shm/cce-remote-shm-"@ + decimal(pid),
        shm_file(false, pid) == "/tmp/cce-remote-shm-"@ + decimal(pid),
        all_digits(decimal(pid)) && numeral(decimal(pid)) == pid,
{
    decimals_are_plain(pid);
    reveal_strlit("/dev/shm");
    reveal_strlit("/tmp");
    reveal_strlit("/cce-remote-shm-");
    reveal_strlit("/dev/shm/cce-remote-shm-");
    reveal_strlit("/tmp/cce-remote-shm-");
    assert("/dev/shm"@ + "/cce-remote-shm-"@ =~= "/dev/shm/cce-remote-shm-"@);
    assert("/tmp"@ + "/cce-remote-shm-"@ =~= "/tmp/cce-remote-shm-"@);
}

/// The compositor has five seconds to offer a buffer, and twenty of silence before
/// its stream counts as dead; no frame of it has more than 64 MiB.
pub proof fn sources_have_their_limits()
    ensures
        NEGOTIATION_WAIT == 5 * 1_000_000_000,
        SILENCE_SECONDS == 20,
        MAX_FRAME_BYTES == 0x400_0000,
{
}

// ---- sources ------------------------------------------------------------------------------------

/// The window stream gives way to copies of the screen, these to `grim`, and that
/// to nothing.
pub proof fn sources_give_way_in_order()
    ensures
        next_best(Source::Windows) == Some(Source::Screencopy),
        next_best(Source::Screencopy) == Some(Source::Grim),
        next_best(Source::Grim) is None,
{
}

/// A turn ends at once if nobody wants frames; it asks for the windows if it
/// never did, or last did more than half a second ago; otherwise it takes the
/// copy, or waits for a window to be known.
pub proof fn a_turn_asks_twice_a_second(a: Aim, since: u64)
    ensures
        turned(a, true, None) == Job::Stop,
        turned(a, true, Some(since)) == Job::Stop,
        turned(a, false, None) == Job::Ask,
        since > 500_000_000 ==> turned(a, false, Some(since)) == Job::Ask,
        since <= 500_000_000 ==> turned(a, false, Some(since)) == shot(a),
{
}

/// A copy is of the window that is aimed at. It waits for damage, for twenty
/// seconds, unless it is to be taken at once; then it has five.
pub proof fn copies_wait_for_damage(rect: Rect)
    ensures
        shot(Aim { rect: Some(rect), full: false }) == (Job::Capture {
            rect,
            damage: true,
            wait: 20_000_000_000,
        }),
        shot(Aim { rect: Some(rect), full: true }) == (Job::Capture {
            rect,
            damage: false,
            wait: 5_000_000_000,
        }),
        shot(unaimed()) == Job::Sleep(300),
        unaimed().full,
{
}

/// The aim follows the focused window. It is taken at once if it is another than
/// before, or was to be anyway; the same window, or none, changes nothing.
pub proof fn the_aim_follows_the_focus(a: Aim, reply: Option<Seq<char>>, rect: Rect)
    ensures
        focus_rect(reply) == Some(rect) ==> aimed(a, reply).rect == Some(rect),
        focus_rect(reply) == Some(rect) && a.rect != Some(rect) ==> aimed(a, reply).full,
        focus_rect(reply) == Some(rect) && a.rect == Some(rect) ==> aimed(a, reply).full == a.full,
        focus_rect(reply) is None ==> aimed(a, reply) == a,
        focus_rect(reply) == Some(rect) ==> followed(a.rect, reply) == Some(rect),
        focus_rect(reply) is None ==> followed(a.rect, reply) == a.rect,
{
}

/// `grim` is told to write the very rectangle, as JPEG, to its output; without a
/// rectangle it is not run.
pub proof fn grim_is_told_the_rectangle(rect: Rect)
    ensures
        grab(Some(rect)) == Job::Grab(grim_arguments(rect)),
        grim_arguments(rect).len() == 9,
        grim_arguments(rect)[0] == "-g"@ && grim_arguments(rect)[1] == geometry(rect),
        grim_arguments(rect)[2] == "-t"@ && grim_arguments(rect)[3] == "jpeg"@,
        grim_arguments(rect)[4] == "-q"@ && grim_arguments(rect)[5] == "65"@,
        grim_arguments(rect)[6] == "-s"@ && grim_arguments(rect)[7] == "0.5"@,
        grim_arguments(rect)[8] == "-"@,
        grab(None) == Job::Sleep(400),
{
}

/// Whatever begins with the bytes `ff` and `d8` counts as a JPEG image, and
/// nothing else does.
pub proof fn jpeg_is_known_by_its_first_bytes(bytes: Seq<u8>, rest: Seq<u8>)
    ensures
        is_jpeg(seq![0xffu8, 0xd8u8] + rest),
        is_jpeg(bytes) ==> bytes == seq![0xffu8, 0xd8u8] + bytes.skip(2),
{
    if is_jpeg(bytes) {
        assert(bytes =~= seq![0xffu8, 0xd8u8] + bytes.skip(2));
    }
}

/// A frame that was read from the window stream becomes the newest, also where the
/// source is to stop; it stops, or reads, only between frames. An error ends it
/// and is told.
pub proof fn what_the_stream_gives_is_handed_on(
    stop: bool,
    frame: Frame,
    e: Seq<char>,
    slot: Latest,
)
    ensures
        filled(slot, streamed(stop, Some(Ok(frame)))).frame == Some(frame),
        filled(slot, streamed(stop, Some(Ok(frame)))).seq == slot.seq + 1,
        outcome(streamed(stop, Some(Ok(frame)))) == Sequel::Pause(0),
        outcome(streamed(stop, Some(Err(e)))) == Sequel::Ended(Some(e)),
        outcome(streamed(true, None)) == Sequel::Ended(None),
        outcome(streamed(false, None)) == Sequel::Todo(Job::Read),
{
}

/// A copy of the screen becomes the newest frame, and the next one waits up to 20
/// seconds for a change. Where nothing came in time the next is taken within 5
/// seconds, changed or not. An error ends the source and is told. None of them
/// moves the aim.
pub proof fn what_is_copied_is_handed_on(
    a: Aim,
    rect: Rect,
    frame: Frame,
    e: Seq<char>,
    slot: Latest,
)
    requires
        a.rect == Some(rect),
    ensures
        filled(slot, taken(a, Ok(Some(frame))).1).frame == Some(frame),
        outcome(taken(a, Ok(Some(frame))).1) == Sequel::Pause(33),
        shot(taken(a, Ok(Some(frame))).0) == (Job::Capture {
            rect,
            damage: true,
            wait: 20_000_000_000,
        }),
        filled(slot, taken(a, Ok(None)).1) == slot,
        outcome(taken(a, Ok(None)).1) == Sequel::Pause(0),
        shot(taken(a, Ok(None)).0) == (Job::Capture {
            rect,
            damage: false,
            wait: 5_000_000_000,
        }),
        outcome(taken(a, Err(e)).1) == Sequel::Ended(Some(e)),
{
}

/// What `grim` wrote is handed on whole if it begins as a JPEG image, as a frame
/// or as a part; else the source sleeps, and the slot stays.
pub proof fn what_grim_writes_is_handed_on(bytes: Seq<u8>, rest: Seq<u8>, slot: Latest)
    ensures
        bytes == seq![0xffu8, 0xd8u8] + rest ==> {
            &&& filled(slot, grim_frame(Some(bytes))).frame == Some(Frame::Jpeg(bytes))
            &&& outcome(grim_frame(Some(bytes))) == Sequel::Pause(350)
            &&& grim_part(Some(bytes)) matches Job::Write(p, ms) && p.image == bytes && ms == 40
                && p.tail == "\r\n"@ && p.head
                == "--frame\r\nContent-Type: image/jpeg\r\nContent-Length: "@ + decimal(
                bytes.len(),
            ) + "\r\n\r\n"@
        },
        bytes.len() < 2 || bytes[0] != 0xff || bytes[1] != 0xd8 ==> {
            &&& filled(slot, grim_frame(Some(bytes))) == slot
            &&& outcome(grim_frame(Some(bytes))) == Sequel::Pause(400)
            &&& outcome(grim_part(Some(bytes))) == Sequel::Pause(440)
        },
        outcome(grim_frame(None)) == Sequel::Pause(400),
        outcome(grim_part(None)) == Sequel::Pause(440),
        outcome(grim_turn(true)) == Sequel::Ended(None),
        outcome(grim_turn(false)) == Sequel::Todo(Job::Ask),
{
}

/// Parts are taken where the window was focused at the start, and the first turn
/// asks anew.
pub proof fn parts_begin_at_the_focus(reply: Option<Seq<char>>)
    ensures
        unpaced(reply).rect == focus_rect(reply),
        paced(unpaced(reply)) == Job::Ask,
{
}

/// The windows are asked for in the first turn and in every fourth from then on,
/// also where the count starts again; in the other turns the image is taken where
/// the window was last seen.
pub proof fn every_fourth_turn_asks(p: Pacing)
    requires
        p.tick < 0x1_0000_0000,
    ensures
        ({
            let (a, b, c, d) = (
                next_tick(p.tick),
                next_tick(next_tick(p.tick)),
                next_tick(next_tick(next_tick(p.tick))),
                next_tick(next_tick(next_tick(next_tick(p.tick)))),
            );
            paced(p) is Ask ==> {
                &&& paced(Pacing { tick: a, ..p }) == grab(p.rect)
                &&& paced(Pacing { tick: b, ..p }) == grab(p.rect)
                &&& paced(Pacing { tick: c, ..p }) == grab(p.rect)
                &&& paced(Pacing { tick: d, ..p }) == Job::Ask
            }
        }),
        paced(Pacing { tick: 0, ..p }) == Job::Ask,
{
}

/// A frame and a sleep pause the source for their time; a stop ends it without a
/// reason and a failure with its own; anything else is left to do.
pub proof fn tasks_have_their_sequel(frame: Frame, ms: u64, text: Seq<char>, rect: Rect)
    ensures
        outcome(Job::Push(frame, ms)) == Sequel::Pause(ms),
        outcome(Job::Sleep(ms)) == Sequel::Pause(ms),
        outcome(Job::Stop) == Sequel::Ended(None),
        outcome(Job::Fail(text)) == Sequel::Ended(Some(text)),
        outcome(Job::Ask) == Sequel::Todo(Job::Ask),
        outcome(Job::Read) == Sequel::Todo(Job::Read),
        outcome(grab(Some(rect))) == Sequel::Todo(grab(Some(rect))),
        outcome(shot(Aim { rect: Some(rect), full: true })) == Sequel::Todo(
            shot(Aim { rect: Some(rect), full: true }),
        ),
{
}

/// A frame that a source hands on is the slot's newest, under the next number;
/// the end of the source, with or without a failure, is the slot's; nothing else
/// touches the slot.
pub proof fn tasks_fill_the_slot(slot: Latest, frame: Frame, ms: u64, text: Seq<char>)
    ensures
        filled(slot, Job::Push(frame, ms)) == (Latest {
            seq: slot.seq + 1,
            frame: Some(frame),
            alive: slot.alive,
        }),
        filled(slot, Job::Stop) == (Latest { alive: false, ..slot }),
        filled(slot, Job::Fail(text)) == (Latest { alive: false, ..slot }),
        filled(slot, Job::Sleep(ms)) == slot,
        filled(slot, Job::Ask) == slot,
        filled(slot, Job::Read) == slot,
{
}

} // verus!
