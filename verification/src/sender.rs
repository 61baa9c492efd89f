//! Sending frames: one at a time to a page that acknowledges each, or as the
//! parts of an endless HTTP answer.
use vstd::prelude::*;
use crate::double::{Double, Magnitude};
use crate::http::{part_head, part_opening};
use crate::payload::{Frame, Payload};
use crate::stream::{Found, LADDER, LAST_LEVEL, Latest, START_LEVEL, STEADY, adapt, adapted, encode, first_guess, first_smoothed, found, image_of, milliseconds, smooth, smoothed, span_ms};
use crate::text::{chars_of, copy_of, is_text};

verus! {

/// Nanoseconds that the page's sender waits for a frame.
pub const FRAME_WAIT: u64 = 30_000_000_000;

/// Nanoseconds that the sender of parts waits for a frame.
pub const PART_WAIT: u64 = 25_000_000_000;

/// Seconds that a read from the page may take.
pub const READ_SECONDS: u64 = 75;

// ---- the page's sender --------------------------------------------------------------------------

/// What the sender waits for.
#[derive(Clone, Copy, PartialEq, Eq, Debug, Structural)]
pub enum Stage {
    /// A frame from the page.
    Reading,
    /// A ping, sent for want of a frame from the page.
    Probing,
    /// A newer frame from the source.
    Watching,
    /// A ping, sent for want of a frame from the source.
    Nudging,
    /// The image to go out.
    Sending,
    /// Nothing more.
    Over,
}

/// What came of the sender's last action.
pub enum Event {
    /// The page sent a text, so many seconds and nanoseconds after the last image.
    Text(String, u64, u32),
    /// The page closed the connection.
    Closed,
    /// The page sent another kind of frame.
    Other,
    /// The page sent nothing in time.
    Quiet,
    /// The read failed.
    Broken,
    /// Whether a ping or an image could be sent.
    Sent(bool),
    /// A newer frame, and its number.
    Newer(u64, Payload),
    /// No newer frame in time.
    Idle,
    /// The source is gone.
    Gone,
}

/// What the sender does next.
pub enum Step {
    /// Read a frame from the page.
    Read,
    /// Send a ping.
    Ping,
    /// Wait for a frame after this one.
    Watch(u64),
    /// Send an image.
    Send(Vec<u8>),
    /// End.
    Stop,
}

/// An event, as contracts see it.
pub enum Seen {
    Text(Seq<char>, u64, u32),
    Closed,
    Other,
    Quiet,
    Broken,
    Sent(bool),
    Newer(nat, Frame),
    Idle,
    Gone,
}

/// A step, as contracts see it.
pub enum Taken {
    Read,
    Ping,
    Watch(nat),
    Send(Seq<u8>),
    Stop,
}

impl View for Event {
    type V = Seen;

    open spec fn view(&self) -> Seen {
        match self {
            Event::Text(t, secs, nanos) => Seen::Text(t@, *secs, *nanos),
            Event::Closed => Seen::Closed,
            Event::Other => Seen::Other,
            Event::Quiet => Seen::Quiet,
            Event::Broken => Seen::Broken,
            Event::Sent(ok) => Seen::Sent(*ok),
            Event::Newer(seq, p) => Seen::Newer(*seq as nat, p@),
            Event::Idle => Seen::Idle,
            Event::Gone => Seen::Gone,
        }
    }
}

impl View for Step {
    type V = Taken;

    open spec fn view(&self) -> Taken {
        match self {
            Step::Read => Taken::Read,
            Step::Ping => Taken::Ping,
            Step::Watch(last) => Taken::Watch(*last as nat),
            Step::Send(bytes) => Taken::Send(bytes@),
            Step::Stop => Taken::Stop,
        }
    }
}

/// The state of a sender.
pub struct Link {
    pub stage: Stage,
    /// The number of the newest frame that was taken up.
    pub last: nat,
    pub level: nat,
    /// The smoothed time to an acknowledgement, in milliseconds.
    pub ewma: Magnitude,
    /// The acknowledgements at this level.
    pub acks: nat,
    /// Whether an image is out that was not acknowledged.
    pub in_flight: bool,
    /// The reads in a row that gave nothing.
    pub silent: nat,
}

/// A sender that has done nothing.
pub open spec fn fresh() -> Link {
    Link {
        stage: Stage::Reading,
        last: 0,
        level: START_LEVEL as nat,
        ewma: first_guess(),
        acks: 0,
        in_flight: false,
        silent: 0,
    }
}

/// Whether the page acknowledges the last image, or asks for the first.
pub open spec fn is_ack(e: Seen) -> bool {
    match e {
        Seen::Text(t, _, _) => t == "n"@,
        _ => false,
    }
}

/// The sender after an acknowledgement that came `secs` and `nanos` after the image.
pub open spec fn acknowledged(s: Link, secs: u64, nanos: u32) -> Link {
    let heard = Link { stage: Stage::Watching, in_flight: false, silent: 0, ..s };
    if s.in_flight {
        let ewma = smoothed(s.ewma, milliseconds(secs as nat, nanos as nat));
        let acks = if s.acks < u32::MAX {
            s.acks + 1
        } else {
            s.acks
        };
        let level = adapted(s.level, Double { negative: false, magnitude: ewma }, acks);
        Link {
            level,
            ewma,
            acks: if level != s.level {
                0
            } else {
                acks
            },
            ..heard
        }
    } else {
        heard
    }
}

/// The sender at another stage.
pub open spec fn at(s: Link, stage: Stage) -> Link {
    Link { stage, ..s }
}

/// What a sender does on an event. One that does not answer the last step ends
/// it.
pub open spec fn reacts(s: Link, e: Seen) -> (Link, Taken) {
    let over = (at(s, Stage::Over), Taken::Stop);
    match (s.stage, e) {
        (Stage::Reading, Seen::Text(t, secs, nanos)) => if t == "n"@ {
            (acknowledged(s, secs, nanos), Taken::Watch(s.last))
        } else {
            (Link { silent: 0, ..s }, Taken::Read)
        },
        (Stage::Reading, Seen::Other) => (Link { silent: 0, ..s }, Taken::Read),
        (Stage::Reading, Seen::Quiet) => if s.silent + 1 >= 2 {
            over
        } else {
            (Link { stage: Stage::Probing, silent: s.silent + 1, ..s }, Taken::Ping)
        },
        (Stage::Probing, Seen::Sent(true)) => (at(s, Stage::Reading), Taken::Read),
        (Stage::Watching, Seen::Newer(seq, frame)) => {
            let (edge, quality) = LADDER@[s.level as int];
            match image_of(frame, edge as nat, quality) {
                Ok(bytes) => (
                    Link { stage: Stage::Sending, last: seq, in_flight: true, ..s },
                    Taken::Send(bytes),
                ),
                Err(_) => (Link { stage: Stage::Reading, last: seq, ..s }, Taken::Read),
            }
        },
        (Stage::Watching, Seen::Idle) => (at(s, Stage::Nudging), Taken::Ping),
        (Stage::Nudging, Seen::Sent(true)) => (at(s, Stage::Watching), Taken::Watch(s.last)),
        (Stage::Sending, Seen::Sent(true)) => (at(s, Stage::Reading), Taken::Read),
        _ => over,
    }
}

/// Sends the newest frame each time the page acknowledges the one before, at
/// the level that the time between the two allows.
pub struct WsSender {
    stage: Stage,
    last: u64,
    level: usize,
    ewma: Magnitude,
    acks: u32,
    in_flight: bool,
    silent: u32,
}

impl View for WsSender {
    type V = Link;

    closed spec fn view(&self) -> Link {
        Link {
            stage: self.stage,
            last: self.last as nat,
            level: self.level as nat,
            ewma: self.ewma,
            acks: self.acks as nat,
            in_flight: self.in_flight,
            silent: self.silent as nat,
        }
    }
}

impl WsSender {
    #[verifier::type_invariant]
    spec fn wf(self) -> bool {
        self.level <= LAST_LEVEL && self.silent <= 1
    }

    /// A new sender; its first step is to read.
    pub fn new() -> (r: WsSender)
        ensures
            r@ == fresh(),
    {
        WsSender {
            stage: Stage::Reading,
            last: 0,
            level: START_LEVEL,
            ewma: first_smoothed(),
            acks: 0,
            in_flight: false,
            silent: 0,
        }
    }

    /// The longest edge of the images at this level.
    pub fn edge(&self) -> (r: u32)
        ensures
            r == LADDER@[self@.level as int].0,
            r > 0,
    {
        proof {
            use_type_invariant(self);
        }
        LADDER[self.level].0
    }

    fn acknowledge(&mut self, secs: u64, nanos: u32)
        ensures
            final(self)@ == acknowledged(old(self)@, secs, nanos),
    {
        proof {
            use_type_invariant(&*self);
        }
        let mut level = self.level;
        let mut ewma = self.ewma;
        let mut acks = self.acks;
        if self.in_flight {
            ewma = smooth(ewma, span_ms(secs, nanos));
            if acks < u32::MAX {
                acks = acks + 1;
            }
            level = adapt(self.level, Double { negative: false, magnitude: ewma }, acks);
            if level != self.level {
                acks = 0;
            }
        }
        *self = WsSender {
            stage: Stage::Watching,
            last: self.last,
            level,
            ewma,
            acks,
            in_flight: false,
            silent: 0,
        };
    }

    /// Takes up a newer frame: the step that sends it.
    fn take_up(&mut self, seq: u64, p: &Payload) -> (r: Step)
        requires
            old(self)@.stage == Stage::Watching,
            p@.readable(LADDER@[old(self)@.level as int].0 as nat),
        ensures
            (final(self)@, r@) == reacts(old(self)@, Seen::Newer(seq as nat, p@)),
    {
        proof {
            use_type_invariant(&*self);
        }
        let (edge, quality) = LADDER[self.level];
        self.last = seq;
        match encode(p, edge, quality) {
            Ok(bytes) => {
                self.stage = Stage::Sending;
                self.in_flight = true;
                Step::Send(bytes)
            },
            Err(_) => {
                self.stage = Stage::Reading;
                Step::Read
            },
        }
    }

    /// The step after an event.
    pub fn on_event(&mut self, e: Event) -> (r: Step)
        requires
            e matches Event::Newer(_, p) ==> p@.readable(LADDER@[old(self)@.level as int].0 as nat),
        ensures
            (final(self)@, r@) == reacts(old(self)@, e@),
    {
        proof {
            use_type_invariant(&*self);
        }
        match (self.stage, e) {
            (Stage::Reading, Event::Text(t, secs, nanos)) => {
                let heard = chars_of(t.as_str());
                if is_text(heard.as_slice(), "n") {
                    self.acknowledge(secs, nanos);
                    Step::Watch(self.last)
                } else {
                    self.silent = 0;
                    Step::Read
                }
            },
            (Stage::Reading, Event::Other) => {
                self.silent = 0;
                Step::Read
            },
            (Stage::Reading, Event::Quiet) => {
                if self.silent >= 1 {
                    self.stage = Stage::Over;
                    Step::Stop
                } else {
                    self.stage = Stage::Probing;
                    self.silent = self.silent + 1;
                    Step::Ping
                }
            },
            (Stage::Probing, Event::Sent(true)) => {
                self.stage = Stage::Reading;
                Step::Read
            },
            (Stage::Watching, Event::Newer(seq, p)) => self.take_up(seq, &p),
            (Stage::Watching, Event::Idle) => {
                self.stage = Stage::Nudging;
                Step::Ping
            },
            (Stage::Nudging, Event::Sent(true)) => {
                self.stage = Stage::Watching;
                Step::Watch(self.last)
            },
            (Stage::Sending, Event::Sent(true)) => {
                self.stage = Stage::Reading;
                Step::Read
            },
            _ => {
                self.stage = Stage::Over;
                Step::Stop
            },
        }
    }
}

// ---- what every sender keeps --------------------------------------------------------------------

/// The sender after a run of events.
pub open spec fn after_all(s: Link, events: Seq<Seen>) -> Link
    decreases events.len(),
{
    if events.len() == 0 {
        s
    } else {
        reacts(after_all(s, events.drop_last()), events.last()).0
    }
}

/// How many images go out in a run of events.
pub open spec fn sends(s: Link, events: Seq<Seen>) -> nat
    decreases events.len(),
{
    if events.len() == 0 {
        0
    } else {
        sends(s, events.drop_last()) + (if reacts(
            after_all(s, events.drop_last()),
            events.last(),
        ).1 is Send {
            1nat
        } else {
            0
        })
    }
}

/// How many acknowledgements there are in a run of events.
pub open spec fn acks_in(events: Seq<Seen>) -> nat
    decreases events.len(),
{
    if events.len() == 0 {
        0
    } else {
        acks_in(events.drop_last()) + (if is_ack(events.last()) {
            1nat
        } else {
            0
        })
    }
}

/// Whether an acknowledgement was heard that no image has answered.
pub open spec fn owes(s: Link) -> bool {
    s.stage == Stage::Watching || s.stage == Stage::Nudging
}

proof fn lemma_credit(s: Link, events: Seq<Seen>)
    ensures
        sends(s, events) + (if owes(after_all(s, events)) {
            1nat
        } else {
            0
        }) <= acks_in(events) + (if owes(s) {
            1nat
        } else {
            0
        }),
    decreases events.len(),
{
    if events.len() > 0 {
        lemma_credit(s, events.drop_last());
    }
}

/// Each image waits for an acknowledgement of its own: a sender that is new, or
/// has just sent, sends no more images than it hears acknowledgements. So never
/// more than one is out.
pub proof fn images_wait_for_acknowledgements(s: Link, events: Seq<Seen>)
    requires
        !owes(s),
    ensures
        sends(s, events) <= acks_in(events),
{
    lemma_credit(s, events);
}

/// After an image the sender has none to give until it is acknowledged.
pub proof fn an_image_leaves_nothing_owed(s: Link, e: Seen)
    requires
        reacts(s, e).1 is Send,
    ensures
        !owes(reacts(s, e).0),
        reacts(s, e).0.in_flight,
{
}

/// The level is on the ladder, whatever happens.
pub proof fn levels_are_on_the_ladder(s: Link, events: Seq<Seen>)
    requires
        s.level <= LAST_LEVEL,
    ensures
        after_all(s, events).level <= LAST_LEVEL,
    decreases events.len(),
{
    if events.len() > 0 {
        levels_are_on_the_ladder(s, events.drop_last());
    }
}

/// A better level comes only after enough acknowledgements since the last
/// change, and every change starts the count again.
pub proof fn a_better_level_is_earned(s: Link, secs: u64, nanos: u32)
    ensures
        acknowledged(s, secs, nanos).level < s.level && s.level <= LAST_LEVEL ==> s.in_flight
            && s.acks + 1 >= STEADY,
        acknowledged(s, secs, nanos).level != s.level ==> acknowledged(s, secs, nanos).acks == 0,
{
}

/// What is found in the slot, as the sender hears of it.
pub open spec fn heard(found: Found) -> Seen {
    match found {
        Found::Newer(seq, frame) => Seen::Newer(seq, frame),
        Found::Gone => Seen::Gone,
        _ => Seen::Idle,
    }
}

/// An image that goes out is that of the newest frame in the slot, one that was
/// not sent before.
pub proof fn the_newest_frame_is_sent(s: Link, slot: Latest, left: nat)
    requires
        s.stage == Stage::Watching,
        reacts(s, heard(found(slot, s.last, left))).1 is Send,
    ensures
        slot.seq > s.last,
        reacts(s, heard(found(slot, s.last, left))).0.last == slot.seq,
        image_of(
            slot.frame->0,
            LADDER@[s.level as int].0 as nat,
            LADDER@[s.level as int].1,
        ) == Ok::<Seq<u8>, Seq<char>>(reacts(s, heard(found(slot, s.last, left))).1->Send_0),
{
}

proof fn lemma_one_more(s: Link, events: Seq<Seen>, e: Seen)
    ensures
        after_all(s, events.push(e)) == reacts(after_all(s, events), e).0,
{
    assert(events.push(e).drop_last() =~= events);
}

/// A page that is silent twice in a row, the ping between unanswered, is given
/// up; anything it sends starts the count again.
pub proof fn two_silences_end_it(s: Link)
    requires
        s.stage == Stage::Reading,
        s.silent == 0,
    ensures
        reacts(s, Seen::Quiet).1 == Taken::Ping,
        after_all(s, seq![Seen::Quiet, Seen::Sent(true), Seen::Quiet]).stage == Stage::Over,
        after_all(s, seq![Seen::Quiet, Seen::Sent(true), Seen::Other]) == s,
{
    let none = Seq::<Seen>::empty();
    let one = none.push(Seen::Quiet);
    let two = one.push(Seen::Sent(true));
    lemma_one_more(s, none, Seen::Quiet);
    lemma_one_more(s, one, Seen::Sent(true));
    lemma_one_more(s, two, Seen::Quiet);
    lemma_one_more(s, two, Seen::Other);
    assert(seq![Seen::Quiet, Seen::Sent(true), Seen::Quiet] =~= two.push(Seen::Quiet));
    assert(seq![Seen::Quiet, Seen::Sent(true), Seen::Other] =~= two.push(Seen::Other));
}

/// A sender that has ended does nothing more.
pub proof fn an_ended_sender_is_silent(s: Link, events: Seq<Seen>)
    requires
        s.stage == Stage::Over,
    ensures
        after_all(s, events).stage == Stage::Over,
        sends(s, events) == 0,
    decreases events.len(),
{
    if events.len() > 0 {
        an_ended_sender_is_silent(s, events.drop_last());
    }
}

// ---- the sender of parts ------------------------------------------------------------------------

pub const PART_EDGE: u32 = 560;

pub const PART_QUALITY: u8 = 60;

/// One image of an endless answer, in the order in which it is written.
pub struct Part {
    pub head: String,
    pub image: Vec<u8>,
    pub tail: String,
}

/// A part, as contracts see it.
pub struct PartText {
    pub head: Seq<char>,
    pub image: Seq<u8>,
    pub tail: Seq<char>,
}

impl View for Part {
    type V = PartText;

    open spec fn view(&self) -> PartText {
        PartText { head: self.head@, image: self.image@, tail: self.tail@ }
    }
}

/// The part that carries an image.
pub open spec fn part(image: Seq<u8>) -> PartText {
    PartText { head: part_opening(image.len()), image, tail: "\r\n"@ }
}

/// The part that carries an image.
pub fn part_of(image: Vec<u8>) -> (r: Part)
    ensures
        r@ == part(image@),
{
    let head = part_head(image.len());
    Part { head, image, tail: copy_of("\r\n") }
}

/// What the sender of parts does next.
pub enum PartStep {
    /// Wait for a frame after this one.
    Watch(u64),
    Write(Part),
    Stop,
}

/// A step, as contracts see it.
pub enum PartTaken {
    Watch(nat),
    Write(PartText),
    Stop,
}

impl View for PartStep {
    type V = PartTaken;

    open spec fn view(&self) -> PartTaken {
        match self {
            PartStep::Watch(last) => PartTaken::Watch(*last as nat),
            PartStep::Write(p) => PartTaken::Write(p@),
            PartStep::Stop => PartTaken::Stop,
        }
    }
}

/// What a sender of parts that has the frame `last` does on an event, and the
/// frame it has then.
pub open spec fn part_reacts(last: nat, e: Seen) -> (nat, PartTaken) {
    match e {
        Seen::Newer(seq, frame) => match image_of(frame, PART_EDGE as nat, PART_QUALITY) {
            Ok(bytes) => (seq, PartTaken::Write(part(bytes))),
            Err(_) => (seq, PartTaken::Watch(seq)),
        },
        Seen::Idle => (last, PartTaken::Watch(last)),
        Seen::Sent(true) => (last, PartTaken::Watch(last)),
        _ => (last, PartTaken::Stop),
    }
}

/// Sends each newest frame as a part, at one size and quality.
pub struct MjpegSender {
    last: u64,
}

impl MjpegSender {
    /// The newest frame that was taken up.
    pub closed spec fn last(&self) -> nat {
        self.last as nat
    }

    /// A new sender; its first step is to wait for a frame after the 0th.
    pub fn new() -> (r: MjpegSender)
        ensures
            r.last() == 0,
    {
        MjpegSender { last: 0 }
    }

    /// The step after an event.
    pub fn on_event(&mut self, e: Event) -> (r: PartStep)
        requires
            e matches Event::Newer(_, p) ==> p@.readable(PART_EDGE as nat),
        ensures
            (final(self).last(), r@) == part_reacts(old(self).last(), e@),
    {
        match e {
            Event::Newer(seq, p) => {
                self.last = seq;
                match encode(&p, PART_EDGE, PART_QUALITY) {
                    Ok(bytes) => PartStep::Write(part_of(bytes)),
                    Err(_) => PartStep::Watch(seq),
                }
            },
            Event::Idle | Event::Sent(true) => PartStep::Watch(self.last),
            _ => PartStep::Stop,
        }
    }
}

/// A part that goes out carries the newest frame in the slot, one that did not
/// go out before.
pub proof fn the_newest_frame_is_the_part(last: nat, slot: Latest, left: nat)
    requires
        part_reacts(last, heard(found(slot, last, left))).1 is Write,
    ensures
        slot.seq > last,
        part_reacts(last, heard(found(slot, last, left))).0 == slot.seq,
        image_of(slot.frame->0, PART_EDGE as nat, PART_QUALITY) == Ok::<Seq<u8>, Seq<char>>(
            part_reacts(last, heard(found(slot, last, left))).1->Write_0.image,
        ),
{
}

} // verus!
