//! Sending frames.
use cce_remote::jpeg::downscale_encode;
use cce_remote::payload::Payload;
use cce_remote::sender::{Event, MjpegSender, PartStep, Step, WsSender};
use cce_remote::stream::{LADDER, START_LEVEL, Slot, Wake};

fn raw(tag: u8) -> Payload {
    Payload::Raw { data: vec![tag; 4 * 16 * 16], w: 16, h: 16, stride: 64, rgb: (0, 1, 2) }
}

fn image(tag: u8, edge: u32, quality: u8) -> Vec<u8> {
    downscale_encode(&[tag; 4 * 16 * 16], 16, 16, 64, (0, 1, 2), edge, quality).unwrap()
}

fn ack(ms: u64) -> Event {
    Event::Text("n".to_string(), ms / 1000, (ms % 1000 * 1_000_000) as u32)
}

/// Sends one frame, acknowledged after so many milliseconds.
fn round(s: &mut WsSender, seq: u64, ms: u64) -> Vec<u8> {
    let sent = match s.on_event(Event::Newer(seq, raw(seq as u8))) {
        Step::Send(bytes) => bytes,
        _ => panic!("an image was due"),
    };
    assert!(matches!(s.on_event(Event::Sent(true)), Step::Read));
    assert!(matches!(s.on_event(ack(ms)), Step::Watch(n) if n == seq));
    sent
}

#[test]
fn a_frame_waits_for_the_acknowledgement_of_the_last() {
    let mut s = WsSender::new();
    assert!(matches!(s.on_event(ack(0)), Step::Watch(0)));
    let (edge, quality) = LADDER[START_LEVEL];
    match s.on_event(Event::Newer(3, raw(3))) {
        Step::Send(bytes) => assert_eq!(bytes, image(3, edge, quality)),
        _ => panic!("an image was due"),
    }
    assert!(matches!(s.on_event(Event::Sent(true)), Step::Read));
    // Anything but an acknowledgement is read past.
    assert!(matches!(s.on_event(Event::Text("m 1 2".to_string(), 0, 0)), Step::Read));
    assert!(matches!(s.on_event(Event::Other), Step::Read));
    assert!(matches!(s.on_event(ack(50)), Step::Watch(3)));
}

#[test]
fn lag_steps_the_level_down_and_headroom_up() {
    let mut s = WsSender::new();
    s.on_event(ack(0));
    assert_eq!(s.edge(), 1120);
    // 0.7 * 120 + 0.3 * 500 is above the threshold at once.
    round(&mut s, 1, 500);
    let bytes = round(&mut s, 2, 0);
    assert_eq!(bytes, image(2, 1120, 55));
    // The average sinks below 90 ms; ten acknowledgements at a level then
    // bring the better one.
    let mut seq = 3;
    while s.edge() != 1400 {
        round(&mut s, seq, 20);
        seq += 1;
        assert!(seq < 60, "the level never rose");
    }
    assert!(seq >= 20, "the level rose too soon");
}

#[test]
fn the_level_stays_on_the_ladder() {
    let mut s = WsSender::new();
    s.on_event(ack(0));
    for seq in 1..20 {
        round(&mut s, seq, 5000);
    }
    assert_eq!(s.edge(), 560);
    let bytes = round(&mut s, 20, 5000);
    assert_eq!(bytes, image(20, 560, 48));
}

#[test]
fn two_silences_end_the_connection() {
    let mut s = WsSender::new();
    assert!(matches!(s.on_event(Event::Quiet), Step::Ping));
    assert!(matches!(s.on_event(Event::Sent(true)), Step::Read));
    // A pong starts the count again.
    assert!(matches!(s.on_event(Event::Other), Step::Read));
    assert!(matches!(s.on_event(Event::Quiet), Step::Ping));
    assert!(matches!(s.on_event(Event::Sent(true)), Step::Read));
    assert!(matches!(s.on_event(Event::Quiet), Step::Stop));
    assert!(matches!(s.on_event(ack(0)), Step::Stop));
}

#[test]
fn an_idle_source_is_bridged_by_pings() {
    let mut s = WsSender::new();
    s.on_event(ack(0));
    for _ in 0..5 {
        assert!(matches!(s.on_event(Event::Idle), Step::Ping));
        assert!(matches!(s.on_event(Event::Sent(true)), Step::Watch(0)));
    }
    assert!(matches!(s.on_event(Event::Newer(1, raw(1))), Step::Send(_)));
}

#[test]
fn failures_end_the_connection() {
    let ends = |events: Vec<Event>| {
        let mut s = WsSender::new();
        let mut last = Step::Read;
        for e in events {
            last = s.on_event(e);
        }
        matches!(last, Step::Stop)
    };
    assert!(ends(vec![Event::Closed]));
    assert!(ends(vec![Event::Broken]));
    assert!(ends(vec![Event::Quiet, Event::Sent(false)]));
    assert!(ends(vec![ack(0), Event::Gone]));
    assert!(ends(vec![ack(0), Event::Idle, Event::Sent(false)]));
    assert!(ends(vec![ack(0), Event::Newer(1, raw(1)), Event::Sent(false)]));
    assert!(!ends(vec![ack(0), Event::Newer(1, raw(1)), Event::Sent(true)]));
}

#[test]
fn a_frame_that_cannot_be_encoded_is_skipped() {
    let mut s = WsSender::new();
    s.on_event(ack(0));
    let bad = Payload::Raw { data: Vec::new(), w: 0, h: 0, stride: 0, rgb: (0, 1, 2) };
    assert!(matches!(s.on_event(Event::Newer(4, bad.clone())), Step::Read));
    assert!(matches!(s.on_event(ack(9000)), Step::Watch(4)));
    // It was not in flight, so the level has not moved.
    assert_eq!(s.edge(), 1120);
    let mut m = MjpegSender::new();
    assert!(matches!(m.on_event(Event::Newer(4, bad)), PartStep::Watch(4)));
}

#[test]
fn parts_carry_the_newest_frame() {
    let mut slot = Slot::new();
    slot.push(raw(1));
    slot.push(raw(2));
    let mut s = MjpegSender::new();
    let (seq, p) = match slot.wait_newer(0, 1) {
        Wake::Newer(seq, p) => (seq, p),
        _ => panic!("a frame was due"),
    };
    let part = match s.on_event(Event::Newer(seq, p)) {
        PartStep::Write(part) => part,
        _ => panic!("a part was due"),
    };
    let jpeg = image(2, 560, 60);
    assert_eq!(part.image, jpeg);
    assert_eq!(
        part.head,
        format!("--frame\r\nContent-Type: image/jpeg\r\nContent-Length: {}\r\n\r\n", jpeg.len())
    );
    assert_eq!(part.tail, "\r\n");
    assert!(matches!(s.on_event(Event::Sent(true)), PartStep::Watch(2)));
    assert!(matches!(s.on_event(Event::Idle), PartStep::Watch(2)));
    assert!(matches!(s.on_event(Event::Sent(false)), PartStep::Stop));
    assert!(matches!(s.on_event(Event::Gone), PartStep::Stop));
}
