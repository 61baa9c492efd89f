//! The newest frame wins, and the link picks its size.
use cce_remote::arith::from_bits;
use cce_remote::double::Double;
use cce_remote::payload::Payload;
use cce_remote::stream::{Slot, Wake, adapt, LADDER, START_LEVEL};

fn raw(tag: u8) -> Payload {
    Payload::Raw { data: vec![tag; 4], w: 1, h: 1, stride: 4, rgb: (0, 1, 2) }
}

fn tag_of(p: &Payload) -> u8 {
    match p {
        Payload::Raw { data, .. } => data[0],
        Payload::Jpeg(b) => b[0],
    }
}

fn ms(n: u64) -> u64 {
    n * 1_000_000
}

fn double(v: f64) -> Double {
    from_bits(v.to_bits())
}

/// The frame that a waiter is given at once.
fn newer(w: Wake) -> (u64, Payload) {
    match w {
        Wake::Newer(seq, p) => (seq, p),
        _ => panic!("a newer frame was due"),
    }
}

#[test]
fn slot_overwrites_never_queues() {
    let mut s = Slot::new();
    s.push(raw(1));
    s.push(raw(2));
    s.push(raw(3));
    // A consumer that fell behind gets the NEWEST frame, once: frames 1
    // and 2 are gone, not waiting their turn.
    let (seq, p) = newer(s.wait_newer(0, ms(10)));
    assert_eq!(seq, 3);
    assert_eq!(tag_of(&p), 3);
    // Nothing newer: times out rather than re-delivering.
    assert!(matches!(s.wait_newer(seq, ms(10)), Wake::Sleep(n) if n == ms(10)));
    assert!(matches!(s.wait_newer(seq, 0), Wake::Idle));
}

#[test]
fn slot_close_wakes_and_errs() {
    let mut s = Slot::new();
    s.push(raw(9));
    let _ = newer(s.wait_newer(0, ms(10)));
    s.close();
    assert!(matches!(s.wait_newer(99, ms(5000)), Wake::Gone), "close must wake, not time out");
}

#[test]
fn slot_wakes_a_blocked_waiter() {
    let mut s = Slot::new();
    assert!(matches!(s.wait_newer(0, ms(5000)), Wake::Sleep(_)));
    s.push(raw(7));
    let got = newer(s.wait_newer(0, ms(4970)));
    assert_eq!(got.0, 1);
    assert_eq!(tag_of(&got.1), 7);
}

#[test]
fn ladder_prefers_resolution_over_quality() {
    // The point of the live view is reading the window: stepping down the
    // ladder must drop quality before it drops size.
    for pair in LADDER.windows(2) {
        let ((e1, _), (e2, _)) = (pair[0], pair[1]);
        assert!(e2 <= e1, "ladder edge must be non-increasing: {pair:?}");
    }
    assert!(START_LEVEL < LADDER.len());
}

#[test]
fn adapt_downgrades_immediately_upgrades_cautiously() {
    // Lag is felt now: no stability requirement to step down.
    assert_eq!(adapt(1, double(300.0), 0), 2);
    // Upgrades need sustained headroom, or the level oscillates at the
    // threshold.
    assert_eq!(adapt(2, double(50.0), 3), 2);
    assert_eq!(adapt(2, double(50.0), 10), 1);
    // The dead band holds steady in both directions.
    assert_eq!(adapt(2, double(150.0), 100), 2);
}

#[test]
fn adapt_clamps_at_both_ends() {
    let worst = LADDER.len() - 1;
    assert_eq!(adapt(worst, double(10_000.0), 0), worst);
    assert_eq!(adapt(0, double(1.0), 1000), 0);
}

#[test]
fn an_ended_slot_hands_out_its_last_frame() {
    let mut s = Slot::new();
    s.push(raw(4));
    s.close();
    assert_eq!(s.seq(), 1);
    assert_eq!(newer(s.wait_newer(0, 0)).0, 1);
    assert!(matches!(s.wait_newer(1, ms(1)), Wake::Gone));
}

#[test]
fn adapt_has_sharp_thresholds() {
    assert_eq!(adapt(2, double(220.0), 100), 2);
    assert_eq!(adapt(2, double(220.00000000000003), 0), 3);
    assert_eq!(adapt(2, double(90.0), 100), 2);
    assert_eq!(adapt(2, double(89.99999999999999), 9), 2);
    assert_eq!(adapt(2, double(89.99999999999999), 10), 1);
    assert_eq!(adapt(2, double(f64::NAN), 100), 2);
    assert_eq!(adapt(0, double(f64::INFINITY), 0), 1);
    assert_eq!(adapt(99, double(1000.0), 0), 5);
}
