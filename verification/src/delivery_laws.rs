//! What the slot and the senders do, event by event.
use vstd::prelude::*;
use crate::arith::{exceeds, under};
use crate::double::Double;
use crate::payload::Frame;
use crate::sender::{
    FRAME_WAIT, Link, PART_WAIT, PartTaken, READ_SECONDS, Seen, Stage, Taken, acks_in, fresh,
    part, part_reacts, reacts,
};
use crate::http::part_opening;
use crate::stream::{Found, LADDER, Latest, adapted, ended, found, image_of, pushed, vacant};

verus! {

// ---- the slot -----------------------------------------------------------------------------------

/// While the source is there, a sender that has the newest frame waits as long as
/// it has time left, and then is told that nothing came.
pub proof fn a_sender_waits_while_it_has_time(s: Latest, last: nat, left: nat)
    requires
        s.alive,
        s.seq <= last,
    ensures
        left > 0 ==> found(s, last, left) == Found::Sleep(left),
        left == 0 ==> found(s, last, left) == Found::Idle,
{
}

/// A sender that lacks the newest frame is given it, with its number, however
/// little time is left and whether or not the source is there.
pub proof fn a_newer_frame_is_given_at_once(s: Latest, frame: Frame, last: nat, left: nat)
    requires
        s.frame == Some(frame),
        s.seq > last,
    ensures
        found(s, last, left) == Found::Newer(s.seq, frame),
{
}

/// A slot begins empty and with its source; each frame takes the next number and
/// the place of the one before; the end of the source changes nothing else.
pub proof fn a_slot_counts_its_frames(s: Latest, frame: Frame)
    ensures
        vacant().seq == 0 && vacant().frame is None && vacant().alive,
        pushed(s, frame).seq == s.seq + 1,
        pushed(s, frame).frame == Some(frame),
        pushed(s, frame).alive == s.alive,
        ended(s).seq == s.seq,
        ended(s).frame == s.frame,
        !ended(s).alive,
{
}

// ---- the levels ---------------------------------------------------------------------------------

/// The levels, best first: the longest edge and the quality of each.
pub proof fn the_levels_are_these()
    ensures
        LADDER@ == seq![
            (1400u32, 68u8),
            (1120u32, 68u8),
            (1120u32, 55u8),
            (840u32, 58u8),
            (840u32, 46u8),
            (560u32, 48u8),
        ],
{
    assert(LADDER@ =~= seq![
        (1400u32, 68u8),
        (1120u32, 68u8),
        (1120u32, 55u8),
        (840u32, 58u8),
        (840u32, 46u8),
        (560u32, 48u8),
    ]);
}

/// A time above 220 ms steps down, to the last level at most; one below 90 ms
/// steps up after ten acknowledgements, to the first at most; any other keeps
/// the level.
pub proof fn times_pick_levels(level: nat, v: Double, acks: nat)
    requires
        level <= 5,
    ensures
        exceeds(v, 220) ==> adapted(level, v, acks) == (if level == 5 {
            5
        } else {
            level + 1
        }),
        !exceeds(v, 220) && under(v, 90) && acks >= 10 ==> adapted(level, v, acks) == (if level
            == 0 {
            0
        } else {
            level - 1
        }),
        !exceeds(v, 220) && under(v, 90) && acks < 10 ==> adapted(level, v, acks) == level,
        !exceeds(v, 220) && !under(v, 90) ==> adapted(level, v, acks) == level,
{
}

// ---- the page's sender --------------------------------------------------------------------------

/// Whether two senders differ in stage and silence alone.
pub open spec fn else_alike(a: Link, b: Link) -> bool {
    &&& a.last == b.last
    &&& a.level == b.level
    &&& a.ewma == b.ewma
    &&& a.acks == b.acks
    &&& a.in_flight == b.in_flight
}

/// A sender begins by reading, at the second level, with nothing in flight.
pub proof fn a_sender_begins_by_reading()
    ensures
        fresh().stage == Stage::Reading,
        fresh().last == 0,
        fresh().level == 1,
        fresh().acks == 0,
        !fresh().in_flight,
        fresh().silent == 0,
{
}

/// A page may be silent for 75 seconds, a source for 30 before the page is pinged,
/// and for 25 before the sender of parts looks again.
pub proof fn senders_have_their_limits()
    ensures
        READ_SECONDS == 75,
        FRAME_WAIT == 30 * 1_000_000_000,
        PART_WAIT == 25 * 1_000_000_000,
{
}

/// What is read: `n`, and only `n`, makes the sender look for a frame after its
/// last; anything else the page sends is read past and ends the silence; a page
/// that closes, or cannot be read, ends the sender.
pub proof fn reads_have_their_steps(s: Link, text: Seq<char>, secs: u64, nanos: u32)
    requires
        s.stage == Stage::Reading,
    ensures
        text == "n"@ ==> reacts(s, Seen::Text(text, secs, nanos)).1 == Taken::Watch(s.last)
            && reacts(s, Seen::Text(text, secs, nanos)).0.stage == Stage::Watching,
        text != "n"@ ==> ({
            let (next, step) = reacts(s, Seen::Text(text, secs, nanos));
            step == Taken::Read && else_alike(next, s) && next.silent == 0 && next.stage
                == Stage::Reading
        }),
        ({
            let (next, step) = reacts(s, Seen::Other);
            step == Taken::Read && else_alike(next, s) && next.silent == 0 && next.stage
                == Stage::Reading
        }),
        reacts(s, Seen::Closed).1 == Taken::Stop && reacts(s, Seen::Closed).0.stage == Stage::Over,
        reacts(s, Seen::Broken).1 == Taken::Stop && reacts(s, Seen::Broken).0.stage == Stage::Over,
        ({
            let (next, step) = reacts(s, Seen::Quiet);
            if s.silent == 0 {
                step == Taken::Ping && else_alike(next, s) && next.silent == 1 && next.stage
                    == Stage::Probing
            } else {
                step == Taken::Stop && next.stage == Stage::Over
            }
        }),
{
}

/// What is sent: after a ping or an image the sender goes back to what it was
/// waiting for, and if it cannot be sent the sender ends.
pub proof fn sendings_have_their_steps(s: Link)
    ensures
        s.stage == Stage::Probing || s.stage == Stage::Sending ==> ({
            let (next, step) = reacts(s, Seen::Sent(true));
            step == Taken::Read && else_alike(next, s) && next.silent == s.silent && next.stage
                == Stage::Reading
        }),
        s.stage == Stage::Nudging ==> ({
            let (next, step) = reacts(s, Seen::Sent(true));
            step == Taken::Watch(s.last) && else_alike(next, s) && next.silent == s.silent
                && next.stage == Stage::Watching
        }),
        reacts(s, Seen::Sent(false)).1 == Taken::Stop,
        reacts(s, Seen::Sent(false)).0.stage == Stage::Over,
{
}

/// What is found: a newer frame is sent as the image of the level, is in flight
/// from then on, and moves the sender to its number; one without an image is
/// skipped for good. No frame in time makes a ping, and no source the end.
pub proof fn findings_have_their_steps(s: Link, seq: nat, frame: Frame)
    requires
        s.stage == Stage::Watching,
        s.level <= 5,
    ensures
        ({
            let (edge, quality) = LADDER@[s.level as int];
            let (next, step) = reacts(s, Seen::Newer(seq, frame));
            &&& next.last == seq
            &&& next.level == s.level && next.ewma == s.ewma && next.acks == s.acks
            &&& next.silent == s.silent
            &&& match image_of(frame, edge as nat, quality) {
                Ok(bytes) => step == Taken::Send(bytes) && next.in_flight && next.stage
                    == Stage::Sending,
                Err(_) => step == Taken::Read && next.in_flight == s.in_flight && next.stage
                    == Stage::Reading,
            }
        }),
        ({
            let (next, step) = reacts(s, Seen::Idle);
            step == Taken::Ping && else_alike(next, s) && next.silent == s.silent && next.stage
                == Stage::Nudging
        }),
        reacts(s, Seen::Gone).1 == Taken::Stop,
        reacts(s, Seen::Gone).0.stage == Stage::Over,
{
}

// ---- the sender of parts ------------------------------------------------------------------------

/// Each newer frame goes out as a part, 560 pixels at most and at quality 60,
/// under its length; one without an image is skipped for good. A written part,
/// and no frame in time, make the sender wait for a frame after its last; a
/// failed write and the end of the source end it.
pub proof fn parts_have_their_steps(last: nat, seq: nat, frame: Frame)
    ensures
        part_reacts(last, Seen::Newer(seq, frame)).0 == seq,
        match image_of(frame, 560, 60) {
            Ok(bytes) => ({
                let p = part_reacts(last, Seen::Newer(seq, frame)).1;
                &&& p is Write
                &&& p->Write_0.image == bytes
                &&& p->Write_0.head == part_opening(bytes.len())
                &&& p->Write_0.tail == seq!['\r', '\n']
            }),
            Err(_) => part_reacts(last, Seen::Newer(seq, frame)).1 == PartTaken::Watch(seq),
        },
        part_reacts(last, Seen::Sent(true)) == (last, PartTaken::Watch(last)),
        part_reacts(last, Seen::Idle) == (last, PartTaken::Watch(last)),
        part_reacts(last, Seen::Sent(false)).1 == PartTaken::Stop,
        part_reacts(last, Seen::Gone).1 == PartTaken::Stop,
{
    reveal_strlit("\r\n");
    assert("\r\n"@ =~= seq!['\r', '\n']);
}

/// The acknowledgements of a run are its texts `n`, each counted once.
pub proof fn acknowledgements_are_the_texts_n(events: Seq<Seen>, e: Seen)
    ensures
        acks_in(Seq::<Seen>::empty()) == 0,
        (e matches Seen::Text(t, _, _) && t == "n"@) ==> acks_in(events.push(e)) == acks_in(events)
            + 1,
        !(e matches Seen::Text(t, _, _) && t == "n"@) ==> acks_in(events.push(e)) == acks_in(events),
{
    assert(events.push(e).drop_last() =~= events);
}

} // verus!
