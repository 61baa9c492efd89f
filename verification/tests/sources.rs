//! Where frames come from.
use cce_remote::payload::Payload;
use cce_remote::producer::{
    GrimStream, Outcome, ScreencopyProducer, Source, Task, fallback, first_source, grim_grabbed,
    grim_located, produce_grim, produce_winstream, settle,
};
use cce_remote::screencopy::{
    BufferMeta, CapState, CaptureEvent, CaptureStep, PixelFormat, Waiting, buffer_size,
    capture_payload, shm_path, wait_until,
};
use cce_remote::stream::{Slot, Wake};
use cce_remote::windows::Rect;
use cce_remote::winstream::{
    Header, MAX_FRAME_BYTES, frame_payload, read_header, stream_error, subscription,
};

const HERE: &str = "{\"id\":1,\"focused\":true,\"x\":1,\"y\":2,\"w\":30,\"h\":40}";
const THERE: &str = "{\"id\":2,\"focused\":true,\"x\":5,\"y\":6,\"w\":70,\"h\":80}";
const RECT: Rect = Rect { x: 1, y: 2, w: 30, h: 40 };
const ARGS: [&str; 9] = ["-g", "1,2 30x40", "-t", "jpeg", "-q", "65", "-s", "0.5", "-"];

fn jpeg() -> Payload {
    Payload::Jpeg(vec![0xff, 0xd8, 1])
}

#[test]
fn sources_are_tried_in_order() {
    assert_eq!(first_source(), Source::Windows);
    assert_eq!(fallback(Source::Windows), Some(Source::Screencopy));
    assert_eq!(fallback(Source::Screencopy), Some(Source::Grim));
    assert_eq!(fallback(Source::Grim), None);
}

#[test]
fn the_window_stream_is_read_until_stopped() {
    assert!(matches!(produce_winstream(true, None), Task::Stop));
    assert!(matches!(produce_winstream(false, None), Task::Read));
    assert!(matches!(produce_winstream(false, Some(Ok(jpeg()))), Task::Push(Payload::Jpeg(_), 0)));
    let failed = produce_winstream(false, Some(Err("gone".to_string())));
    assert!(matches!(failed, Task::Fail(e) if e == "gone"));
}

#[test]
fn the_screen_is_copied_on_damage_once_it_was_shown() {
    let mut p = ScreencopyProducer::new();
    assert!(matches!(p.turn(true, None), Task::Stop));
    assert!(matches!(p.turn(false, None), Task::Ask));
    // No focused window yet.
    assert!(matches!(p.located(None), Task::Sleep(300)));
    assert!(matches!(p.turn(false, Some(500_000_000)), Task::Sleep(300)));
    assert!(matches!(p.turn(false, Some(500_000_001)), Task::Ask));
    assert!(matches!(
        p.located(Some(HERE)),
        Task::Capture { rect, damage: false, wait: 5_000_000_000 } if rect == RECT
    ));
    assert!(matches!(p.captured(Ok(Some(jpeg()))), Task::Push(_, 33)));
    assert!(matches!(
        p.turn(false, Some(1)),
        Task::Capture { rect, damage: true, wait: 20_000_000_000 } if rect == RECT
    ));
    // The same window, or none: still on damage.
    assert!(matches!(p.located(Some(HERE)), Task::Capture { damage: true, .. }));
    assert!(matches!(p.located(Some("")), Task::Capture { damage: true, .. }));
    // Nothing changed in time: the next is taken at once.
    assert!(matches!(p.captured(Ok(None)), Task::Sleep(0)));
    assert!(matches!(p.turn(false, Some(1)), Task::Capture { damage: false, .. }));
    assert!(matches!(p.captured(Ok(Some(jpeg()))), Task::Push(_, 33)));
    // The focus moved.
    assert!(matches!(p.located(Some(THERE)), Task::Capture { damage: false, .. }));
    assert!(matches!(p.captured(Err("lost".to_string())), Task::Fail(e) if e == "lost"));
}

#[test]
fn grim_is_run_on_the_focused_window() {
    assert!(matches!(produce_grim(true), Task::Stop));
    assert!(matches!(produce_grim(false), Task::Ask));
    assert!(matches!(grim_located(None), Task::Sleep(400)));
    assert!(matches!(grim_located(Some(HERE)), Task::Grab(args) if args == ARGS));
    let image = vec![0xff, 0xd8, 7];
    assert!(matches!(
        grim_grabbed(Some(image.clone())),
        Task::Push(Payload::Jpeg(b), 350) if b == image
    ));
    for bad in [None, Some(vec![]), Some(vec![0xff]), Some(vec![0x89, b'P'])] {
        assert!(matches!(grim_grabbed(bad), Task::Sleep(400)));
    }
}

#[test]
fn grim_parts_follow_the_focus_every_fourth_turn() {
    let mut g = GrimStream::new(None);
    assert!(matches!(g.turn(), Task::Ask));
    assert!(matches!(g.located(None), Task::Sleep(400)));
    for _ in 0..3 {
        assert!(matches!(g.turn(), Task::Sleep(400)));
    }
    assert!(matches!(g.turn(), Task::Ask));
    assert!(matches!(g.located(Some(HERE)), Task::Grab(args) if args == ARGS));
    for _ in 0..3 {
        assert!(matches!(g.turn(), Task::Grab(args) if args == ARGS));
    }
    assert!(matches!(g.turn(), Task::Ask));
    // A window that is lost stays where it was.
    assert!(matches!(g.located(Some("")), Task::Grab(args) if args == ARGS));
    assert!(matches!(GrimStream::new(Some(HERE)).turn(), Task::Ask));
    match GrimStream::grabbed(Some(vec![0xff, 0xd8])) {
        Task::Write(part, 40) => {
            assert_eq!(part.image, [0xff, 0xd8]);
            assert!(part.head.ends_with("Content-Length: 2\r\n\r\n"));
            assert_eq!(part.tail, "\r\n");
        }
        _ => panic!("a part was due"),
    }
    assert!(matches!(GrimStream::grabbed(None), Task::Sleep(440)));
    assert!(matches!(GrimStream::grabbed(Some(vec![1, 2])), Task::Sleep(440)));
}

#[test]
fn headers_announce_frames() {
    assert_eq!(read_header("frame 2 3 24\n"), Header::Frame { w: 2, h: 3, len: 24 });
    assert_eq!(read_header("  frame\t+2 3 24 more"), Header::Frame { w: 2, h: 3, len: 24 });
    assert_eq!(read_header("frame 0 7 0\n"), Header::Frame { w: 0, h: 7, len: 0 });
    assert_eq!(read_header(""), Header::End);
    for skipped in ["\n", "ok\n", "frames 1 1 4\n", "Frame 1 1 4\n", "keepalive 1\n"] {
        assert_eq!(read_header(skipped), Header::Skip, "{skipped:?}");
    }
    for bad in ["frame\n", "frame 1 1\n", "frame 1 x 4\n", "frame -1 1 4\n", "frame 1 1 4294967296\n"] {
        assert_eq!(read_header(bad), Header::Bad, "{bad:?}");
    }
    for off in ["frame 2 3 23\n", "frame 65536 65536 4294967295\n", "frame 65536 65536 0\n"] {
        assert_eq!(read_header(off), Header::Implausible, "{off:?}");
    }
    // The largest frame, and one pixel more.
    assert_eq!(MAX_FRAME_BYTES, 67_108_864);
    assert_eq!(
        read_header("frame 4096 4096 67108864\n"),
        Header::Frame { w: 4096, h: 4096, len: 67_108_864 }
    );
    assert_eq!(read_header("frame 16777217 1 67108868\n"), Header::Implausible);
}

#[test]
fn a_broken_stream_says_why() {
    let line = "frame x\n";
    let quoted = format!("{line:?}");
    let why = |h| stream_error(h, &quoted);
    assert_eq!(why(Header::End), Some("stream socket closed".to_string()));
    assert_eq!(why(Header::Bad), Some("bad frame header: \"frame x\\n\"".to_string()));
    assert_eq!(why(Header::Implausible), Some("implausible frame: \"frame x\\n\"".to_string()));
    assert_eq!(why(Header::Skip), None);
    assert_eq!(why(Header::Frame { w: 1, h: 1, len: 4 }), None);
    assert_eq!(subscription(), "window focused\n");
}

#[test]
fn announced_frames_are_rgba() {
    match frame_payload(2, 1, vec![1, 2, 3, 4, 5, 6, 7, 8]) {
        Payload::Raw { data, w: 2, h: 1, stride: 8, rgb: (0, 1, 2) } => {
            assert_eq!(data, [1, 2, 3, 4, 5, 6, 7, 8]);
        }
        _ => panic!("another frame"),
    }
    assert!(frame_payload(2, 1, vec![0; 8]).readable(1));
}

fn meta(format: PixelFormat) -> BufferMeta {
    BufferMeta { w: 2, h: 2, stride: 8, format }
}

#[test]
fn a_known_format_is_negotiated() {
    let mut s = CapState::new();
    assert!(!s.offered() && !s.copied());
    s.on_event(CaptureEvent::Buffer(meta(PixelFormat::Other)));
    assert!(matches!(
        s.after_offer(true, None, true),
        CaptureStep::Fail(e) if e == "no usable shm format offered"
    ));
    s.on_event(CaptureEvent::Buffer(meta(PixelFormat::Argb8888)));
    s.on_event(CaptureEvent::Buffer(meta(PixelFormat::Xbgr8888)));
    s.on_event(CaptureEvent::Buffer(meta(PixelFormat::Other)));
    s.on_event(CaptureEvent::Other);
    assert!(matches!(s.after_offer(false, None, true), CaptureStep::Nothing));
    s.on_event(CaptureEvent::BufferDone);
    assert!(s.offered() && !s.copied());
    let wanted = meta(PixelFormat::Xbgr8888);
    assert!(matches!(
        s.after_offer(true, Some(wanted), false),
        CaptureStep::Copy { buffer, keep: true, damage: false } if buffer == wanted
    ));
    assert!(matches!(
        s.after_offer(true, Some(meta(PixelFormat::Argb8888)), true),
        CaptureStep::Copy { buffer, keep: false, damage: true } if buffer == wanted
    ));
    assert!(matches!(s.after_copy(false, wanted), CaptureStep::Nothing));
    s.on_event(CaptureEvent::Ready);
    assert!(s.copied());
    assert!(matches!(s.after_copy(true, wanted), CaptureStep::Take(m) if m == wanted));
    s.on_event(CaptureEvent::Failed);
    assert!(matches!(s.after_offer(true, None, true), CaptureStep::Fail(e) if e == "capture failed"));
    assert!(matches!(s.after_copy(true, wanted), CaptureStep::Fail(e) if e == "copy failed"));
}

#[test]
fn waits_poll_in_short_steps() {
    assert_eq!(wait_until(true, 0), Waiting::Done);
    assert_eq!(wait_until(false, 0), Waiting::Expired);
    assert_eq!(wait_until(false, 1), Waiting::Poll(1));
    assert_eq!(wait_until(false, 7_900_000), Waiting::Poll(7));
    assert_eq!(wait_until(false, 200_000_000), Waiting::Poll(200));
    assert_eq!(wait_until(false, u64::MAX), Waiting::Poll(200));
}

#[test]
fn buffers_are_placed_and_read() {
    assert_eq!(buffer_size(meta(PixelFormat::Xrgb8888)), 16);
    assert_eq!(shm_path(true, 4321), "/dev/shm/cce-remote-shm-4321");
    assert_eq!(shm_path(false, 1), "/tmp/cce-remote-shm-1");
    for (format, places) in [
        (PixelFormat::Xrgb8888, (2, 1, 0)),
        (PixelFormat::Argb8888, (2, 1, 0)),
        (PixelFormat::Xbgr8888, (0, 1, 2)),
        (PixelFormat::Abgr8888, (0, 1, 2)),
    ] {
        let frame = capture_payload(meta(format), vec![0; 16]);
        assert!(frame.readable(560));
        match frame {
            Payload::Raw { data, w, h, stride, rgb } => {
                assert_eq!((data.len(), w, h, stride, rgb), (16, 2, 2, 8, places));
            }
            Payload::Jpeg(_) => panic!("another kind of frame"),
        }
    }
}

#[test]
fn a_slot_ends_with_its_source() {
    for last in [Task::Stop, Task::Fail("lost".to_string())] {
        let failed = matches!(last, Task::Fail(_));
        let mut slot = Slot::new();
        assert!(matches!(settle(&mut slot, Task::Push(jpeg(), 33)), Outcome::Pause(33)));
        assert!(matches!(settle(&mut slot, Task::Sleep(400)), Outcome::Pause(400)));
        assert!(matches!(settle(&mut slot, Task::Ask), Outcome::Todo(Task::Ask)));
        assert_eq!(slot.seq(), 1);
        assert!(matches!(slot.wait_newer(1, 5), Wake::Sleep(5)));
        match settle(&mut slot, last) {
            Outcome::Ended(why) => assert_eq!(why.is_some(), failed),
            _ => panic!("the source had ended"),
        }
        assert!(matches!(slot.wait_newer(1, 5), Wake::Gone));
        assert!(matches!(slot.wait_newer(0, 5), Wake::Newer(1, _)));
    }
}
