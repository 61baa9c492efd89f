//! Capturing the screen: what the compositor says of a frame, and what to do.
use vstd::prelude::*;
use vstd::string::StringExecFns;
use crate::digits::{decimal, push_decimal};
use crate::payload::{Frame, Payload, sound_frames_are_readable};
use crate::text::copy_of;

verus! {

/// Nanoseconds in which the compositor has to offer a buffer.
pub const NEGOTIATION_WAIT: u64 = 5_000_000_000;

/// How the four bytes of a pixel are laid out.
#[derive(Clone, Copy, PartialEq, Eq, Debug, Structural)]
pub enum PixelFormat {
    Xrgb8888,
    Argb8888,
    Xbgr8888,
    Abgr8888,
    Other,
}

/// The buffer that a frame needs.
#[derive(Clone, Copy, PartialEq, Eq, Debug, Structural)]
pub struct BufferMeta {
    pub w: u32,
    pub h: u32,
    pub stride: u32,
    pub format: PixelFormat,
}

/// What the compositor says of a frame.
#[derive(Clone, Copy, PartialEq, Eq, Debug, Structural)]
pub enum CaptureEvent {
    /// It can be copied to such a buffer.
    Buffer(BufferMeta),
    /// All buffers were named.
    BufferDone,
    /// It was copied.
    Ready,
    /// There is none.
    Failed,
    /// Anything else.
    Other,
}

/// What is known of a frame.
#[derive(Clone, Copy, PartialEq, Eq, Debug, Structural)]
pub struct CapState {
    pub buffer_meta: Option<BufferMeta>,
    pub buffer_done: bool,
    pub ready: bool,
    pub failed: bool,
}

/// What is done about a frame next.
pub enum CaptureStep {
    /// Copy it to such a buffer: the one that is there, if `keep`, else a new
    /// one; with `damage`, once something has changed.
    Copy { buffer: BufferMeta, keep: bool, damage: bool },
    /// Take it from the buffer.
    Take(BufferMeta),
    /// Do without: the compositor took too long.
    Nothing,
    /// Give up, for this reason.
    Fail(String),
}

/// A step, as contracts see it.
pub enum CaptureMove {
    Copy { buffer: BufferMeta, keep: bool, damage: bool },
    Take(BufferMeta),
    Nothing,
    Fail(Seq<char>),
}

impl View for CaptureStep {
    type V = CaptureMove;

    open spec fn view(&self) -> CaptureMove {
        match self {
            CaptureStep::Copy { buffer, keep, damage } => CaptureMove::Copy {
                buffer: *buffer,
                keep: *keep,
                damage: *damage,
            },
            CaptureStep::Take(m) => CaptureMove::Take(*m),
            CaptureStep::Nothing => CaptureMove::Nothing,
            CaptureStep::Fail(text) => CaptureMove::Fail(text@),
        }
    }
}

/// What is known after an event. A buffer counts if its format is known; the
/// last one named is taken.
pub open spec fn learned(s: CapState, e: CaptureEvent) -> CapState {
    match e {
        CaptureEvent::Buffer(m) => if m.format != PixelFormat::Other {
            CapState { buffer_meta: Some(m), ..s }
        } else {
            s
        },
        CaptureEvent::BufferDone => CapState { buffer_done: true, ..s },
        CaptureEvent::Ready => CapState { ready: true, ..s },
        CaptureEvent::Failed => CapState { failed: true, ..s },
        CaptureEvent::Other => s,
    }
}

/// What is known after a run of events.
pub open spec fn learned_all(s: CapState, events: Seq<CaptureEvent>) -> CapState
    decreases events.len(),
{
    if events.len() == 0 {
        s
    } else {
        learned(learned_all(s, events.drop_last()), events.last())
    }
}

/// Whether the wait for a buffer is over.
pub open spec fn is_offered(s: CapState) -> bool {
    s.buffer_done || s.failed
}

/// Whether the wait for the copy is over.
pub open spec fn is_copied(s: CapState) -> bool {
    s.ready || s.failed
}

/// The bytes of a buffer.
pub open spec fn buffer_bytes(m: BufferMeta) -> nat {
    (m.stride * m.h) as nat
}

impl CapState {
    /// Before anything was said.
    pub open spec fn unknown() -> CapState {
        CapState { buffer_meta: None, buffer_done: false, ready: false, failed: false }
    }

    pub fn new() -> (r: CapState)
        ensures
            r == CapState::unknown(),
    {
        CapState { buffer_meta: None, buffer_done: false, ready: false, failed: false }
    }

    /// Takes note of an event.
    pub fn on_event(&mut self, e: CaptureEvent)
        ensures
            *final(self) == learned(*old(self), e),
    {
        match e {
            CaptureEvent::Buffer(m) => {
                if m.format != PixelFormat::Other {
                    self.buffer_meta = Some(m);
                }
            },
            CaptureEvent::BufferDone => {
                self.buffer_done = true;
            },
            CaptureEvent::Ready => {
                self.ready = true;
            },
            CaptureEvent::Failed => {
                self.failed = true;
            },
            CaptureEvent::Other => {},
        }
    }

    /// Whether the wait for a buffer is over.
    pub fn offered(&self) -> (r: bool)
        ensures
            r == (self.buffer_done || self.failed),
            r == is_offered(*self),
    {
        self.buffer_done || self.failed
    }

    /// Whether the wait for the copy is over.
    pub fn copied(&self) -> (r: bool)
        ensures
            r == (self.ready || self.failed),
            r == is_copied(*self),
    {
        self.ready || self.failed
    }

    /// What is done once the wait for a buffer has ended, `in_time` or not;
    /// `current` is the buffer that is there.
    pub fn after_offer(&self, in_time: bool, current: Option<BufferMeta>, use_damage: bool) -> (r:
        CaptureStep)
        ensures
            r@ == offer_taken(*self, in_time, current, use_damage),
    {
        match self.buffer_meta {
            None => CaptureStep::Fail(copy_of("no usable shm format offered")),
            Some(m) => if self.failed {
                CaptureStep::Fail(copy_of("capture failed"))
            } else if !in_time {
                CaptureStep::Nothing
            } else {
                let keep = match current {
                    Some(c) => c == m,
                    None => false,
                };
                CaptureStep::Copy { buffer: m, keep, damage: use_damage }
            },
        }
    }

    /// What is done once the wait for the copy to `buffer` has ended.
    pub fn after_copy(&self, in_time: bool, buffer: BufferMeta) -> (r: CaptureStep)
        ensures
            r@ == copy_taken(*self, in_time, buffer),
    {
        if self.failed {
            CaptureStep::Fail(copy_of("copy failed"))
        } else if !in_time {
            CaptureStep::Nothing
        } else {
            CaptureStep::Take(buffer)
        }
    }
}

/// What is done once the wait for a buffer has ended.
pub open spec fn offer_taken(
    s: CapState,
    in_time: bool,
    current: Option<BufferMeta>,
    use_damage: bool,
) -> CaptureMove {
    match s.buffer_meta {
        None => CaptureMove::Fail("no usable shm format offered"@),
        Some(m) => if s.failed {
            CaptureMove::Fail("capture failed"@)
        } else if !in_time {
            CaptureMove::Nothing
        } else {
            CaptureMove::Copy { buffer: m, keep: current == Some(m), damage: use_damage }
        },
    }
}

/// What is done once the wait for the copy has ended.
pub open spec fn copy_taken(s: CapState, in_time: bool, buffer: BufferMeta) -> CaptureMove {
    if s.failed {
        CaptureMove::Fail("copy failed"@)
    } else if !in_time {
        CaptureMove::Nothing
    } else {
        CaptureMove::Take(buffer)
    }
}

/// What a wait does next.
#[derive(Clone, Copy, PartialEq, Eq, Debug, Structural)]
pub enum Waiting {
    /// What is waited for has come.
    Done,
    /// The time is up.
    Expired,
    /// Wait for the connection, this many milliseconds at most.
    Poll(i32),
}

/// What a wait does next, with `left` nanoseconds to go.
pub open spec fn waits(held: bool, left: nat) -> Waiting {
    let ms = left / 1_000_000;
    if held {
        Waiting::Done
    } else if left == 0 {
        Waiting::Expired
    } else if ms > 200 {
        Waiting::Poll(200)
    } else if ms < 1 {
        Waiting::Poll(1)
    } else {
        Waiting::Poll(ms as i32)
    }
}

/// What a wait does next: `held` is whether what is waited for has come.
pub fn wait_until(held: bool, left: u64) -> (r: Waiting)
    ensures
        r == waits(held, left as nat),
{
    let ms: u64 = left / 1_000_000;
    if held {
        Waiting::Done
    } else if left == 0 {
        Waiting::Expired
    } else if ms > 200 {
        Waiting::Poll(200)
    } else if ms < 1 {
        Waiting::Poll(1)
    } else {
        Waiting::Poll(ms as i32)
    }
}

/// The bytes of a buffer.
pub fn buffer_size(m: BufferMeta) -> (r: u32)
    requires
        m.stride * m.h <= u32::MAX,
    ensures
        r == m.stride * m.h,
        r == buffer_bytes(m),
{
    m.stride * m.h
}

/// Where the memory shared with the compositor is made.
pub open spec fn shm_file(in_memory: bool, pid: nat) -> Seq<char> {
    (if in_memory {
        "/dev/shm"@
    } else {
        "/tmp"@
    }) + "/cce-remote-shm-"@ + decimal(pid)
}

/// Where the memory shared with the compositor is made, by the process `pid`;
/// `in_memory` is whether `/dev/shm` is a directory.
pub fn shm_path(in_memory: bool, pid: u32) -> (r: String)
    ensures
        r@ == shm_file(in_memory, pid as nat),
{
    let mut out = if in_memory {
        copy_of("/dev/shm")
    } else {
        copy_of("/tmp")
    };
    out.append("/cce-remote-shm-");
    push_decimal(&mut out, pid as u64);
    out
}

/// Where red, green and blue stand in a pixel.
pub open spec fn rgb_places(format: PixelFormat) -> (usize, usize, usize) {
    match format {
        PixelFormat::Xrgb8888 | PixelFormat::Argb8888 => (2, 1, 0),
        _ => (0, 1, 2),
    }
}

/// A copied frame.
pub open spec fn captured_frame(m: BufferMeta, data: Seq<u8>) -> Frame {
    Frame::Raw { data, w: m.w, h: m.h, stride: m.stride, rgb: rgb_places(m.format) }
}

/// The frame that the bytes of a buffer are.
pub fn capture_payload(m: BufferMeta, data: Vec<u8>) -> (r: Payload)
    ensures
        r@ == captured_frame(m, data@),
{
    let rgb: (usize, usize, usize) = match m.format {
        PixelFormat::Xrgb8888 | PixelFormat::Argb8888 => (2, 1, 0),
        _ => (0, 1, 2),
    };
    Payload::Raw { data, w: m.w, h: m.h, stride: m.stride, rgb }
}

/// A buffer is used only if its format is one of the four that are known.
pub proof fn only_known_formats_are_used(events: Seq<CaptureEvent>)
    ensures
        match learned_all(CapState::unknown(), events).buffer_meta {
            Some(m) => m.format != PixelFormat::Other,
            None => true,
        },
    decreases events.len(),
{
    if events.len() > 0 {
        only_known_formats_are_used(events.drop_last());
    }
}

/// No frame is taken, or even copied, after a failure, whatever follows it.
pub proof fn a_failed_frame_is_not_taken(
    s: CapState,
    events: Seq<CaptureEvent>,
    in_time: bool,
    current: Option<BufferMeta>,
    use_damage: bool,
    buffer: BufferMeta,
)
    requires
        s.failed,
    ensures
        learned_all(s, events).failed,
        offer_taken(learned_all(s, events), in_time, current, use_damage) is Fail,
        copy_taken(learned_all(s, events), in_time, buffer) is Fail,
    decreases events.len(),
{
    if events.len() > 0 {
        a_failed_frame_is_not_taken(
            s,
            events.drop_last(),
            in_time,
            current,
            use_damage,
            buffer,
        );
    }
}

/// A copied frame whose rows hold their pixels can be shrunk to any size.
pub proof fn copied_frames_are_sound(m: BufferMeta, data: Seq<u8>, max_edge: nat)
    requires
        m.stride >= 4 * m.w,
        data.len() == m.stride * m.h,
        max_edge > 0,
    ensures
        captured_frame(m, data).sound(),
        captured_frame(m, data).readable(max_edge),
{
    sound_frames_are_readable(captured_frame(m, data), max_edge);
}

} // verus!
