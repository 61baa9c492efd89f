//! The sources of frames: the compositor's window stream, its screen, or the
//! `grim` program.
use vstd::prelude::*;
use crate::payload::{Frame, Payload};
use crate::sender::{Part, PartText, part, part_of};
use crate::stream::{Found, Latest, Slot, ended, found, pushed};
use crate::text::{all_texts, copy_of, text_of};
use crate::windows::{Rect, focus_rect, focused_rect, geometry, geometry_text};

verus! {

// ---- which source -------------------------------------------------------------------------------

/// Where frames come from.
#[derive(Clone, Copy, PartialEq, Eq, Debug, Structural)]
pub enum Source {
    /// The compositor's stream of the focused window.
    Windows,
    /// Copies of the screen.
    Screencopy,
    /// The `grim` program.
    Grim,
}

/// The source to try when one cannot be had.
pub open spec fn next_best(s: Source) -> Option<Source> {
    match s {
        Source::Windows => Some(Source::Screencopy),
        Source::Screencopy => Some(Source::Grim),
        Source::Grim => None,
    }
}

/// The source to try first.
pub fn first_source() -> (r: Source)
    ensures
        r == Source::Windows,
{
    Source::Windows
}

/// The source to try when `s` cannot be had.
pub fn fallback(s: Source) -> (r: Option<Source>)
    ensures
        r == next_best(s),
{
    match s {
        Source::Windows => Some(Source::Screencopy),
        Source::Screencopy => Some(Source::Grim),
        Source::Grim => None,
    }
}

// ---- what a source does -------------------------------------------------------------------------

/// What a source does next.
pub enum Task {
    /// End: nobody wants frames any more.
    Stop,
    /// Ask the compositor for its windows.
    Ask,
    /// Read a frame from the window stream.
    Read,
    /// Copy this part of the screen, with `damage` once it has changed, within
    /// so many nanoseconds.
    Capture { rect: Rect, damage: bool, wait: u64 },
    /// Run `grim` with these arguments.
    Grab(Vec<String>),
    /// Sleep for so many milliseconds.
    Sleep(u64),
    /// Hand a frame on, then sleep for so many milliseconds.
    Push(Payload, u64),
    /// Write a part, then sleep for so many milliseconds.
    Write(Part, u64),
    /// End for this reason.
    Fail(String),
}

/// A task, as contracts see it.
pub enum Job {
    Stop,
    Ask,
    Read,
    Capture { rect: Rect, damage: bool, wait: u64 },
    Grab(Seq<Seq<char>>),
    Sleep(u64),
    Push(Frame, u64),
    Write(PartText, u64),
    Fail(Seq<char>),
}

impl View for Task {
    type V = Job;

    open spec fn view(&self) -> Job {
        match self {
            Task::Stop => Job::Stop,
            Task::Ask => Job::Ask,
            Task::Read => Job::Read,
            Task::Capture { rect, damage, wait } => Job::Capture {
                rect: *rect,
                damage: *damage,
                wait: *wait,
            },
            Task::Grab(args) => Job::Grab(all_texts(args@)),
            Task::Sleep(ms) => Job::Sleep(*ms),
            Task::Push(p, ms) => Job::Push(p@, *ms),
            Task::Write(p, ms) => Job::Write(p@, *ms),
            Task::Fail(text) => Job::Fail(text@),
        }
    }
}

// ---- the slot -----------------------------------------------------------------------------------

/// What follows a task.
pub enum Outcome {
    /// Another turn, after so many milliseconds.
    Pause(u64),
    /// The source has ended, for this reason if it failed.
    Ended(Option<String>),
    /// The source has to do the task first.
    Todo(Task),
}

/// What follows, as contracts see it.
pub enum Sequel {
    Pause(u64),
    Ended(Option<Seq<char>>),
    Todo(Job),
}

impl View for Outcome {
    type V = Sequel;

    open spec fn view(&self) -> Sequel {
        match self {
            Outcome::Pause(ms) => Sequel::Pause(*ms),
            Outcome::Ended(None) => Sequel::Ended(None),
            Outcome::Ended(Some(text)) => Sequel::Ended(Some(text@)),
            Outcome::Todo(task) => Sequel::Todo(task@),
        }
    }
}

/// The slot after a task of its source: a frame goes in, and a source that ends
/// ends it.
pub open spec fn filled(slot: Latest, job: Job) -> Latest {
    match job {
        Job::Push(frame, _) => pushed(slot, frame),
        Job::Stop | Job::Fail(_) => ended(slot),
        _ => slot,
    }
}

/// What follows a task.
pub open spec fn outcome(job: Job) -> Sequel {
    match job {
        Job::Push(_, ms) => Sequel::Pause(ms),
        Job::Sleep(ms) => Sequel::Pause(ms),
        Job::Stop => Sequel::Ended(None),
        Job::Fail(text) => Sequel::Ended(Some(text)),
        _ => Sequel::Todo(job),
    }
}

/// Carries out a source's task on its slot, as far as it is about the slot.
pub fn settle(slot: &mut Slot, task: Task) -> (r: Outcome)
    requires
        task is Push ==> old(slot)@.seq < u64::MAX,
    ensures
        final(slot)@ == filled(old(slot)@, task@),
        r@ == outcome(task@),
{
    match task {
        Task::Push(p, ms) => {
            slot.push(p);
            Outcome::Pause(ms)
        },
        Task::Sleep(ms) => Outcome::Pause(ms),
        Task::Stop => {
            slot.close();
            Outcome::Ended(None)
        },
        Task::Fail(e) => {
            slot.close();
            Outcome::Ended(Some(e))
        },
        other => Outcome::Todo(other),
    }
}

/// A source that ends, stopped or failed, leaves no sender waiting: one that has
/// the newest frame is told that the source is gone, another gets that frame.
pub proof fn an_ended_source_ends_the_slot(slot: Latest, job: Job, last: nat, left: nat)
    requires
        outcome(job) is Ended,
    ensures
        !filled(slot, job).alive,
        filled(slot, job).frame == slot.frame,
        found(filled(slot, job), last, left) == (if slot.seq > last {
            Found::Newer(slot.seq, slot.frame->0)
        } else {
            Found::Gone
        }),
{
}

/// Only a source that ends ends its slot, and only a frame changes what is in it.
pub proof fn a_running_source_keeps_the_slot(slot: Latest, job: Job)
    requires
        !(outcome(job) is Ended),
    ensures
        filled(slot, job).alive == slot.alive,
        !(job is Push) ==> filled(slot, job) == slot,
{
}

// ---- the window stream --------------------------------------------------------------------------

/// What the window stream's source does: at the start of a turn, and once a
/// frame was read or could not be.
pub open spec fn streamed(stop: bool, read: Option<Result<Frame, Seq<char>>>) -> Job {
    match read {
        None => if stop {
            Job::Stop
        } else {
            Job::Read
        },
        Some(Ok(frame)) => Job::Push(frame, 0),
        Some(Err(e)) => Job::Fail(e),
    }
}

/// What the window stream's source does: at the start of a turn, and once a
/// frame was read.
pub fn produce_winstream(stop: bool, read: Option<Result<Payload, String>>) -> (r: Task)
    ensures
        r@ == (match read {
            None => if stop {
                Job::Stop
            } else {
                Job::Read
            },
            Some(Ok(p)) => Job::Push(p@, 0),
            Some(Err(e)) => Job::Fail(e@),
        }),
        r@ == streamed(
            stop,
            match read {
                None => None,
                Some(Ok(p)) => Some(Ok(p@)),
                Some(Err(e)) => Some(Err(e@)),
            },
        ),
{
    match read {
        None => if stop {
            Task::Stop
        } else {
            Task::Read
        },
        Some(Ok(p)) => Task::Push(p, 0),
        Some(Err(e)) => Task::Fail(e),
    }
}

// ---- copies of the screen -----------------------------------------------------------------------

/// Nanoseconds for which the focused window is taken to stay where it is.
pub const RECT_AGE: u64 = 500_000_000;

/// Nanoseconds in which a frame has to come that does not wait for a change.
pub const FULL_WAIT: u64 = 5_000_000_000;

/// Nanoseconds after which a frame is taken though nothing has changed.
pub const DAMAGE_WAIT: u64 = 20_000_000_000;

/// Where the copies are taken, and whether the next is taken at once.
pub struct Aim {
    pub rect: Option<Rect>,
    pub full: bool,
}

/// Before the focused window is known.
pub open spec fn unaimed() -> Aim {
    Aim { rect: None, full: true }
}

/// The copy to take.
pub open spec fn shot(a: Aim) -> Job {
    match a.rect {
        None => Job::Sleep(300),
        Some(rect) => Job::Capture {
            rect,
            damage: !a.full,
            wait: if a.full {
                FULL_WAIT
            } else {
                DAMAGE_WAIT
            },
        },
    }
}

/// What starts a turn, `since` nanoseconds after the windows were asked for.
pub open spec fn turned(a: Aim, stop: bool, since: Option<u64>) -> Job {
    if stop {
        Job::Stop
    } else if since is None || since->0 > RECT_AGE {
        Job::Ask
    } else {
        shot(a)
    }
}

/// The aim after the compositor's reply: a focused window that is somewhere
/// else is copied at once.
pub open spec fn aimed(a: Aim, reply: Option<Seq<char>>) -> Aim {
    match focus_rect(reply) {
        Some(r) => Aim { rect: Some(r), full: a.full || a.rect != Some(r) },
        None => a,
    }
}

/// The aim after a copy, and what to do with it: a frame is handed on, and the
/// next waits for a change; where none came in time the next does not wait.
pub open spec fn taken(a: Aim, result: Result<Option<Frame>, Seq<char>>) -> (Aim, Job) {
    match result {
        Ok(Some(frame)) => (Aim { full: false, ..a }, Job::Push(frame, 33)),
        Ok(None) => (Aim { full: true, ..a }, Job::Sleep(0)),
        Err(e) => (a, Job::Fail(e)),
    }
}

/// Takes copies of the focused window's part of the screen.
pub struct ScreencopyProducer {
    rect: Option<Rect>,
    full: bool,
}

impl View for ScreencopyProducer {
    type V = Aim;

    closed spec fn view(&self) -> Aim {
        Aim { rect: self.rect, full: self.full }
    }
}

impl ScreencopyProducer {
    pub fn new() -> (r: ScreencopyProducer)
        ensures
            r@ == unaimed(),
    {
        ScreencopyProducer { rect: None, full: true }
    }

    fn shoot(&self) -> (r: Task)
        ensures
            r@ == shot(self@),
    {
        match self.rect {
            None => Task::Sleep(300),
            Some(rect) => Task::Capture {
                rect,
                damage: !self.full,
                wait: if self.full {
                    FULL_WAIT
                } else {
                    DAMAGE_WAIT
                },
            },
        }
    }

    /// Starts a turn, `since` nanoseconds after the windows were asked for.
    pub fn turn(&self, stop: bool, since: Option<u64>) -> (r: Task)
        ensures
            r@ == turned(self@, stop, since),
    {
        if stop {
            return Task::Stop;
        }
        match since {
            None => Task::Ask,
            Some(age) => if age > RECT_AGE {
                Task::Ask
            } else {
                self.shoot()
            },
        }
    }

    /// Goes on with the turn once the compositor has replied.
    pub fn located(&mut self, reply: Option<&str>) -> (r: Task)
        ensures
            final(self)@ == aimed(old(self)@, text_of(reply)),
            r@ == shot(final(self)@),
    {
        if let Some(found) = focused_rect(reply) {
            let same = match self.rect {
                Some(known) => known == found,
                None => false,
            };
            if !same {
                self.full = true;
            }
            self.rect = Some(found);
        }
        self.shoot()
    }

    /// Ends the turn with what came of the copy: a frame, nothing in time, or
    /// an error.
    pub fn captured(&mut self, result: Result<Option<Payload>, String>) -> (r: Task)
        ensures
            final(self)@.rect == old(self)@.rect,
            match result {
                Ok(Some(p)) => r@ == Job::Push(p@, 33) && !final(self)@.full,
                Ok(None) => r@ == Job::Sleep(0) && final(self)@.full,
                Err(e) => r@ == Job::Fail(e@) && final(self)@ == old(self)@,
            },
            (final(self)@, r@) == taken(
                old(self)@,
                match result {
                    Ok(Some(p)) => Ok(Some(p@)),
                    Ok(None) => Ok(None),
                    Err(e) => Err(e@),
                },
            ),
    {
        match result {
            Ok(Some(p)) => {
                self.full = false;
                Task::Push(p, 33)
            },
            Ok(None) => {
                self.full = true;
                Task::Sleep(0)
            },
            Err(e) => Task::Fail(e),
        }
    }
}

/// A focused window that is somewhere else than before, or the first, is copied
/// without waiting for a change.
pub proof fn a_moved_focus_is_shown_at_once(a: Aim, reply: Seq<char>)
    requires
        focus_rect(Some(reply)) is Some,
        a.rect != focus_rect(Some(reply)),
    ensures
        shot(aimed(a, Some(reply))) == (Job::Capture {
            rect: focus_rect(Some(reply))->0,
            damage: false,
            wait: FULL_WAIT,
        }),
{
}

/// Where nothing is found the aim stays.
pub proof fn a_lost_focus_keeps_the_aim(a: Aim, reply: Option<Seq<char>>)
    requires
        focus_rect(reply) is None,
    ensures
        aimed(a, reply) == a,
{
}

// ---- the grim program ---------------------------------------------------------------------------

/// The arguments that make `grim` write a rectangle to its output as JPEG.
pub open spec fn grim_arguments(r: Rect) -> Seq<Seq<char>> {
    seq!["-g"@, geometry(r), "-t"@, "jpeg"@, "-q"@, "65"@, "-s"@, "0.5"@, "-"@]
}

fn grim_args(r: Rect) -> (v: Vec<String>)
    ensures
        all_texts(v@) == grim_arguments(r),
{
    let mut v: Vec<String> = Vec::new();
    v.push(copy_of("-g"));
    v.push(geometry_text(r));
    v.push(copy_of("-t"));
    v.push(copy_of("jpeg"));
    v.push(copy_of("-q"));
    v.push(copy_of("65"));
    v.push(copy_of("-s"));
    v.push(copy_of("0.5"));
    v.push(copy_of("-"));
    assert(all_texts(v@) =~= grim_arguments(r));
    v
}

/// Whether bytes begin as a JPEG image does.
pub open spec fn is_jpeg(bytes: Seq<u8>) -> bool {
    bytes.len() >= 2 && bytes[0] == 0xff && bytes[1] == 0xd8
}

fn looks_jpeg(bytes: &Vec<u8>) -> (r: bool)
    ensures
        r == is_jpeg(bytes@),
{
    bytes.len() >= 2 && bytes[0] == 0xff && bytes[1] == 0xd8
}

/// The job of taking a rectangle with `grim`.
pub open spec fn grab(r: Option<Rect>) -> Job {
    match r {
        Some(rect) => Job::Grab(grim_arguments(rect)),
        None => Job::Sleep(400),
    }
}

fn grab_at(r: Option<Rect>) -> (t: Task)
    ensures
        t@ == grab(r),
{
    match r {
        Some(rect) => Task::Grab(grim_args(rect)),
        None => Task::Sleep(400),
    }
}

/// What `grim`'s source does at the start of a turn.
pub open spec fn grim_turn(stop: bool) -> Job {
    if stop {
        Job::Stop
    } else {
        Job::Ask
    }
}

/// What `grim`'s source does with the output of a run, or without one.
pub open spec fn grim_frame(output: Option<Seq<u8>>) -> Job {
    match output {
        Some(bytes) => if is_jpeg(bytes) {
            Job::Push(Frame::Jpeg(bytes), 350)
        } else {
            Job::Sleep(400)
        },
        None => Job::Sleep(400),
    }
}

/// What `grim`'s source does at the start of a turn.
pub fn produce_grim(stop: bool) -> (r: Task)
    ensures
        r@ == (if stop {
            Job::Stop
        } else {
            Job::Ask
        }),
        r@ == grim_turn(stop),
{
    if stop {
        Task::Stop
    } else {
        Task::Ask
    }
}

/// What `grim`'s source does once the compositor has replied.
pub fn grim_located(reply: Option<&str>) -> (r: Task)
    ensures
        r@ == grab(focus_rect(text_of(reply))),
{
    grab_at(focused_rect(reply))
}

/// What `grim`'s source does with the output of a run that succeeded, or
/// without one.
pub fn grim_grabbed(output: Option<Vec<u8>>) -> (r: Task)
    ensures
        r@ == (match output {
            Some(bytes) if is_jpeg(bytes@) => Job::Push(Frame::Jpeg(bytes@), 350),
            _ => Job::Sleep(400),
        }),
        r@ == grim_frame(
            match output {
                Some(bytes) => Some(bytes@),
                None => None,
            },
        ),
{
    match output {
        Some(bytes) => if looks_jpeg(&bytes) {
            Task::Push(Payload::Jpeg(bytes), 350)
        } else {
            Task::Sleep(400)
        },
        None => Task::Sleep(400),
    }
}

// ---- parts straight from grim -------------------------------------------------------------------

/// Where `grim`'s parts are taken, and how many turns there were, modulo 2^32.
pub struct Pacing {
    pub rect: Option<Rect>,
    pub tick: nat,
}

/// Writes parts straight from `grim`, where no other source can be had. It asks
/// where the focused window is in every fourth turn.
pub struct GrimStream {
    rect: Option<Rect>,
    tick: u32,
}

impl View for GrimStream {
    type V = Pacing;

    closed spec fn view(&self) -> Pacing {
        Pacing { rect: self.rect, tick: self.tick as nat }
    }
}

/// Where the focused window is by a reply, or where it was.
pub open spec fn followed(rect: Option<Rect>, reply: Option<Seq<char>>) -> Option<Rect> {
    match focus_rect(reply) {
        Some(r) => Some(r),
        None => rect,
    }
}

/// The count of turns after another one, modulo 2^32.
pub open spec fn next_tick(tick: nat) -> nat {
    (tick + 1) % 0x1_0000_0000
}

/// What starts a turn.
pub open spec fn paced(p: Pacing) -> Job {
    if p.tick % 4 == 0 {
        Job::Ask
    } else {
        grab(p.rect)
    }
}

/// Before the first turn.
pub open spec fn unpaced(reply: Option<Seq<char>>) -> Pacing {
    Pacing { rect: focus_rect(reply), tick: 0 }
}

/// What ends a turn: the part that an image makes, or a longer sleep.
pub open spec fn grim_part(output: Option<Seq<u8>>) -> Job {
    match output {
        Some(bytes) => if is_jpeg(bytes) {
            Job::Write(part(bytes), 40)
        } else {
            Job::Sleep(440)
        },
        None => Job::Sleep(440),
    }
}

impl GrimStream {
    /// A stream of the window that is focused by the compositor's reply.
    pub fn new(reply: Option<&str>) -> (r: GrimStream)
        ensures
            r@ == (Pacing { rect: focus_rect(text_of(reply)), tick: 0 }),
            r@ == unpaced(text_of(reply)),
    {
        GrimStream { rect: focused_rect(reply), tick: 0 }
    }

    /// Starts a turn: ask, in every fourth, else take the image.
    pub fn turn(&mut self) -> (r: Task)
        ensures
            final(self)@ == (Pacing {
                rect: old(self)@.rect,
                tick: (old(self)@.tick + 1) % 0x1_0000_0000,
            }),
            r@ == (if old(self)@.tick % 4 == 0 {
                Job::Ask
            } else {
                grab(old(self)@.rect)
            }),
            r@ == paced(old(self)@),
            final(self)@.tick == next_tick(old(self)@.tick),
    {
        let due = self.tick % 4 == 0;
        if self.tick == u32::MAX {
            self.tick = 0;
        } else {
            self.tick = self.tick + 1;
        }
        if due {
            Task::Ask
        } else {
            grab_at(self.rect)
        }
    }

    /// Goes on with the turn once the compositor has replied.
    pub fn located(&mut self, reply: Option<&str>) -> (r: Task)
        ensures
            final(self)@ == (Pacing {
                rect: followed(old(self)@.rect, text_of(reply)),
                tick: old(self)@.tick,
            }),
            r@ == grab(final(self)@.rect),
    {
        if let Some(found) = focused_rect(reply) {
            self.rect = Some(found);
        }
        grab_at(self.rect)
    }

    /// Ends the turn with the output of a run that succeeded, or without one.
    pub fn grabbed(output: Option<Vec<u8>>) -> (r: Task)
        ensures
            r@ == (match output {
                Some(bytes) if is_jpeg(bytes@) => Job::Write(part(bytes@), 40),
                _ => Job::Sleep(440),
            }),
            r@ == grim_part(
                match output {
                    Some(bytes) => Some(bytes@),
                    None => None,
                },
            ),
    {
        match output {
            Some(bytes) => if looks_jpeg(&bytes) {
                Task::Write(part_of(bytes), 40)
            } else {
                Task::Sleep(440)
            },
            None => Task::Sleep(440),
        }
    }
}

} // verus!
