//! The live view: the newest frame wins, and the link picks its size.
use vstd::prelude::*;
use vstd::arithmetic::power2::lemma_pow2_pos;
use crate::arith::{add_sizes, exceeds, is_above, is_below, multiply, product, sum, under};
use crate::double::{Double, Magnitude, nearest, round};
use crate::jpeg::{downscale_encode, encoded, frame_jpeg};
use crate::natural::Natural;
use crate::payload::{Frame, Payload, copy_bytes};

verus! {

// ---- the slot -----------------------------------------------------------------------------------

/// What a slot holds: how many frames came, the newest, and whether more may.
pub struct Latest {
    pub seq: nat,
    pub frame: Option<Frame>,
    pub alive: bool,
}

/// A slot that nothing has come to.
pub open spec fn vacant() -> Latest {
    Latest { seq: 0, frame: None, alive: true }
}

/// The slot after `frame` came.
pub open spec fn pushed(s: Latest, frame: Frame) -> Latest {
    Latest { seq: s.seq + 1, frame: Some(frame), alive: s.alive }
}

/// The slot after several frames came.
pub open spec fn pushed_all(s: Latest, frames: Seq<Frame>) -> Latest
    decreases frames.len(),
{
    if frames.len() == 0 {
        s
    } else {
        pushed(pushed_all(s, frames.drop_last()), frames.last())
    }
}

/// The slot after its source ended.
pub open spec fn ended(s: Latest) -> Latest {
    Latest { alive: false, ..s }
}

/// What a sender that has the frame `last` finds, with `left` nanoseconds to wait.
pub open spec fn found(s: Latest, last: nat, left: nat) -> Found {
    if s.seq > last {
        Found::Newer(s.seq, s.frame->0)
    } else if !s.alive {
        Found::Gone
    } else if left == 0 {
        Found::Idle
    } else {
        Found::Sleep(left)
    }
}

/// A finding, as contracts see it.
pub enum Found {
    Newer(nat, Frame),
    Gone,
    Idle,
    Sleep(nat),
}

/// What a sender finds in the slot.
pub enum Wake {
    /// A frame it has not had, and its number.
    Newer(u64, Payload),
    /// The source is gone.
    Gone,
    /// No frame came in time.
    Idle,
    /// Sleep until woken, this many nanoseconds at most, and look again.
    Sleep(u64),
}

impl View for Wake {
    type V = Found;

    open spec fn view(&self) -> Found {
        match self {
            Wake::Newer(seq, p) => Found::Newer(*seq as nat, p@),
            Wake::Gone => Found::Gone,
            Wake::Idle => Found::Idle,
            Wake::Sleep(n) => Found::Sleep(*n as nat),
        }
    }
}

/// The newest frame of a source, for however many senders there are.
pub struct Slot {
    seq: u64,
    frame: Option<Payload>,
    alive: bool,
}

impl View for Slot {
    type V = Latest;

    closed spec fn view(&self) -> Latest {
        Latest {
            seq: self.seq as nat,
            frame: match self.frame {
                Some(p) => Some(p@),
                None => None,
            },
            alive: self.alive,
        }
    }
}

impl Slot {
    #[verifier::type_invariant]
    spec fn numbered(self) -> bool {
        self.seq > 0 ==> self.frame is Some
    }

    pub fn new() -> (r: Slot)
        ensures
            r@ == vacant(),
    {
        Slot { seq: 0, frame: None, alive: true }
    }

    /// How many frames have come.
    pub fn seq(&self) -> (r: u64)
        ensures
            r == self@.seq,
    {
        self.seq
    }

    /// Puts a frame in place of the one that is there.
    pub fn push(&mut self, p: Payload)
        requires
            old(self)@.seq < u64::MAX,
        ensures
            final(self)@ == pushed(old(self)@, p@),
    {
        self.frame = Some(p);
        self.seq = self.seq + 1;
    }

    /// Notes that the source is gone.
    pub fn close(&mut self)
        ensures
            final(self)@ == ended(old(self)@),
    {
        proof {
            use_type_invariant(&*self);
        }
        self.alive = false;
    }

    /// The newest frame if it came after `last`; else whether to go on waiting,
    /// with `left` nanoseconds to go.
    pub fn wait_newer(&self, last: u64, left: u64) -> (r: Wake)
        ensures
            r@ == found(self@, last as nat, left as nat),
    {
        proof {
            use_type_invariant(self);
        }
        if self.seq > last {
            if let Some(p) = &self.frame {
                return Wake::Newer(self.seq, p.clone());
            }
        }
        if !self.alive {
            Wake::Gone
        } else if left == 0 {
            Wake::Idle
        } else {
            Wake::Sleep(left)
        }
    }
}

/// The last of any number of frames is what the slot holds: the others are
/// gone, whatever was there before.
pub proof fn the_newest_frame_wins(s: Latest, frames: Seq<Frame>)
    requires
        frames.len() > 0,
    ensures
        pushed_all(s, frames).seq == s.seq + frames.len(),
        pushed_all(s, frames).frame == Some(frames.last()),
        forall|last: nat, left: nat|
            last <= s.seq ==> found(pushed_all(s, frames), last, left) == Found::Newer(
                s.seq + frames.len(),
                frames.last(),
            ),
    decreases frames.len(),
{
    if frames.len() > 1 {
        the_newest_frame_wins(s, frames.drop_last());
    } else {
        assert(pushed_all(s, frames.drop_last()) == s);
    }
}

/// A sender that has the newest frame is given none until another comes.
pub proof fn no_frame_comes_twice(s: Latest, left: nat, frame: Frame)
    ensures
        !(found(s, s.seq, left) is Newer),
        found(pushed(s, frame), s.seq, left) == Found::Newer(s.seq + 1, frame),
{
}

/// A sender that was told to sleep need not sleep on: once a frame comes it
/// finds that frame, and once the source ends it finds that, however much time
/// it has left.
pub proof fn a_sleeper_has_cause_to_wake(s: Latest, left: nat, frame: Frame, later: nat)
    requires
        found(s, s.seq, left) is Sleep,
    ensures
        found(pushed(s, frame), s.seq, later) == Found::Newer(s.seq + 1, frame),
        found(ended(s), s.seq, later) is Gone,
{
}

/// A slot whose source is gone makes nobody wait: it hands out the frame it
/// has, and then says so.
pub proof fn an_ended_slot_never_waits(s: Latest, last: nat, left: nat)
    ensures
        found(ended(s), last, left) == (if s.seq > last {
            found(s, last, left)
        } else {
            Found::Gone
        }),
        !(found(ended(s), last, left) is Idle),
        !(found(ended(s), last, left) is Sleep),
{
}

// ---- encoding -----------------------------------------------------------------------------------

/// The JPEG image that is sent for a frame, or why there is none.
pub open spec fn image_of(frame: Frame, max_edge: nat, quality: u8) -> Result<Seq<u8>, Seq<char>> {
    match frame {
        Frame::Raw { data, w, h, stride, rgb } => frame_jpeg(
            data,
            w as nat,
            h as nat,
            stride as nat,
            rgb,
            max_edge,
            quality,
        ),
        Frame::Jpeg(bytes) => Ok(bytes),
    }
}

/// The JPEG image of a frame; one that is JPEG already is passed on.
pub fn encode(p: &Payload, max_edge: u32, quality: u8) -> (r: Result<Vec<u8>, String>)
    requires
        p@.readable(max_edge as nat),
    ensures
        encoded(r) == image_of(p@, max_edge as nat, quality),
{
    match p {
        Payload::Raw { data, w, h, stride, rgb } => downscale_encode(
            data.as_slice(),
            *w,
            *h,
            *stride,
            *rgb,
            max_edge,
            quality,
        ),
        Payload::Jpeg(bytes) => Ok(copy_bytes(bytes)),
    }
}

// ---- adaptation ---------------------------------------------------------------------------------

/// The longest edge and the JPEG quality of each level, best first.
pub const LADDER: [(u32, u8); 6] = [
    (1400, 68),
    (1120, 68),
    (1120, 55),
    (840, 58),
    (840, 46),
    (560, 48),
];

pub const START_LEVEL: usize = 1;

pub const LAST_LEVEL: usize = 5;

/// The time to an acknowledgement, in milliseconds, above which a level is too much.
pub const SLOW: u32 = 220;

/// The time below which a better level may be tried.
pub const FAST: u32 = 90;

/// The acknowledgements at one level that come before a better one.
pub const STEADY: u32 = 10;

/// The level after `level`, at the smoothed time `ewma_ms` and after `acks`
/// acknowledgements at this level.
pub open spec fn adapted(level: nat, ewma_ms: Double, acks: nat) -> nat {
    if exceeds(ewma_ms, SLOW as nat) {
        if level < LAST_LEVEL {
            level + 1
        } else {
            LAST_LEVEL as nat
        }
    } else if under(ewma_ms, FAST as nat) && acks >= STEADY && level > 0 {
        (level - 1) as nat
    } else {
        level
    }
}

/// The next level: a step down at once when frames take long, a step up only
/// after a while of frames that do not.
pub fn adapt(level: usize, ewma_ms: Double, acks_since_change: u32) -> (r: usize)
    ensures
        r == adapted(level as nat, ewma_ms, acks_since_change as nat),
{
    if is_above(ewma_ms, SLOW) {
        if level < LAST_LEVEL {
            level + 1
        } else {
            LAST_LEVEL
        }
    } else if is_below(ewma_ms, FAST) && acks_since_change >= STEADY && level > 0 {
        level - 1
    } else {
        level
    }
}

/// The first level is on the ladder, and each further level has no longer
/// edges; where the edge stays, the quality drops.
pub proof fn the_ladder_descends(i: int)
    requires
        0 <= i < LAST_LEVEL,
    ensures
        LADDER@.len() == LAST_LEVEL + 1,
        START_LEVEL <= LAST_LEVEL,
        LADDER@[i + 1].0 <= LADDER@[i].0,
        LADDER@[i + 1].0 == LADDER@[i].0 ==> LADDER@[i + 1].1 < LADDER@[i].1,
{
}

/// A shorter edge comes only after a drop in quality at the longer one, but
/// for the step from the best level.
pub proof fn quality_drops_before_size(i: int)
    requires
        1 <= i < LAST_LEVEL,
        LADDER@[i + 1].0 < LADDER@[i].0,
    ensures
        LADDER@[i - 1].0 == LADDER@[i].0,
        LADDER@[i].1 < LADDER@[i - 1].1,
{
}

/// A level on the ladder is followed by one on the ladder, at most one step
/// away.
pub proof fn levels_stay_on_the_ladder(level: nat, ewma_ms: Double, acks: nat)
    requires
        level <= LAST_LEVEL,
    ensures
        adapted(level, ewma_ms, acks) <= LAST_LEVEL,
        level <= adapted(level, ewma_ms, acks) + 1,
        adapted(level, ewma_ms, acks) <= level + 1,
{
}

/// No number is both too slow and fast enough.
proof fn lemma_slow_is_not_fast(v: Double)
    requires
        exceeds(v, SLOW as nat),
    ensures
        !under(v, FAST as nat),
{
    let u = vstd::arithmetic::power2::pow2(1074);
    lemma_pow2_pos(1074);
    assert(FAST * u <= SLOW * u) by (nonlinear_arith)
        requires
            u >= 0,
            FAST <= SLOW,
    ;
}

/// Too slow a link steps down at once, whatever came before.
pub proof fn lag_steps_down_at_once(level: nat, ewma_ms: Double, acks: nat)
    requires
        level < LAST_LEVEL,
        exceeds(ewma_ms, SLOW as nat),
    ensures
        adapted(level, ewma_ms, acks) == level + 1,
{
}

/// A step up needs a fast link and enough acknowledgements at this level; with
/// them it comes.
pub proof fn a_step_up_needs_steadiness(level: nat, ewma_ms: Double, acks: nat)
    requires
        0 < level <= LAST_LEVEL,
    ensures
        (adapted(level, ewma_ms, acks) < level) == (under(ewma_ms, FAST as nat) && acks >= STEADY),
{
    if exceeds(ewma_ms, SLOW as nat) {
        lemma_slow_is_not_fast(ewma_ms);
    }
}

/// Between the two thresholds the level holds, however long.
pub proof fn the_dead_band_holds(level: nat, ewma_ms: Double, acks: nat)
    requires
        !exceeds(ewma_ms, SLOW as nat),
        !under(ewma_ms, FAST as nat),
    ensures
        adapted(level, ewma_ms, acks) == level,
{
}

// ---- smoothing ----------------------------------------------------------------------------------

/// A span of `secs` seconds and `nanos` nanoseconds in milliseconds, as
/// doubles have it.
pub open spec fn milliseconds(secs: nat, nanos: nat) -> Magnitude {
    product(sum(nearest(secs, 1), nearest(nanos, 1_000_000_000)), nearest(1000, 1))
}

/// The smoothed time: 0.7 of what it was and 0.3 of the newest.
pub open spec fn smoothed(ewma: Magnitude, ms: Magnitude) -> Magnitude {
    sum(product(nearest(7, 10), ewma), product(nearest(3, 10), ms))
}

/// The nearest double to `n / d`.
fn ratio(n: u64, d: u64) -> (r: Magnitude)
    requires
        d > 0,
    ensures
        r == nearest(n as nat, d as nat),
        r.wf(),
{
    round(Natural::new(n), Natural::new(d))
}

/// A span in milliseconds.
pub fn span_ms(secs: u64, nanos: u32) -> (r: Magnitude)
    ensures
        r == milliseconds(secs as nat, nanos as nat),
        r.wf(),
{
    let s = add_sizes(ratio(secs, 1), ratio(nanos as u64, 1_000_000_000));
    multiply(s, ratio(1000, 1))
}

/// The smoothed time to an acknowledgement.
pub fn smooth(ewma: Magnitude, ms: Magnitude) -> (r: Magnitude)
    ensures
        r == smoothed(ewma, ms),
        r.wf(),
{
    add_sizes(multiply(ratio(7, 10), ewma), multiply(ratio(3, 10), ms))
}

/// The smoothed time before any frame was acknowledged, in milliseconds.
pub open spec fn first_guess() -> Magnitude {
    nearest(120, 1)
}

/// The smoothed time to start with.
pub fn first_smoothed() -> (r: Magnitude)
    ensures
        r == first_guess(),
        r.wf(),
{
    ratio(120, 1)
}

} // verus!
