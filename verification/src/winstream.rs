//! The compositor's window stream: headers, each followed by a frame.
use vstd::prelude::*;
use vstd::string::StringExecFns;
use crate::digits::{parse_unsigned, unsigned_of};
use crate::payload::{Frame, Payload, sound_frames_are_readable};
use crate::text::{Blanks, all_chars, chars_of, copy_of, is_text};
use crate::words::{words, words_of};

verus! {

/// More bytes than any frame has.
pub const MAX_FRAME_BYTES: u32 = 64 * 1024 * 1024;

/// Seconds of silence after which the compositor counts as gone.
pub const SILENCE_SECONDS: u64 = 20;

/// What a line of the stream announces.
#[derive(Clone, Copy, PartialEq, Eq, Debug, Structural)]
pub enum Header {
    /// The stream has ended: the line is empty.
    End,
    /// Nothing that matters here.
    Skip,
    /// A frame of `w` by `h` pixels follows, in `len` bytes.
    Frame { w: u32, h: u32, len: u32 },
    /// A frame without its three numbers.
    Bad,
    /// A frame whose numbers do not fit together, or are too large.
    Implausible,
}

/// `n`, or the largest `u32` if that is smaller.
pub open spec fn saturated(n: nat) -> nat {
    if n < u32::MAX {
        n
    } else {
        u32::MAX as nat
    }
}

/// Word `i` of a line as a `u32`.
pub open spec fn number_at(ws: Seq<Seq<char>>, i: int) -> Option<nat> {
    if i < ws.len() {
        parse_unsigned(ws[i], u32::MAX as nat)
    } else {
        None
    }
}

/// Whether a frame of `w` by `h` pixels may have `len` bytes.
pub open spec fn plausible(w: nat, h: nat, len: nat) -> bool {
    len == saturated(saturated(w * h) * 4) && len <= MAX_FRAME_BYTES
}

/// What a line announces.
pub open spec fn announced(line: Seq<char>) -> Header {
    let ws = words(Blanks::Ascii, line);
    if line.len() == 0 {
        Header::End
    } else if ws.len() == 0 || ws[0] != "frame"@ {
        Header::Skip
    } else {
        match (number_at(ws, 1), number_at(ws, 2), number_at(ws, 3)) {
            (Some(w), Some(h), Some(len)) => if plausible(w, h, len) {
                Header::Frame { w: w as u32, h: h as u32, len: len as u32 }
            } else {
                Header::Implausible
            },
            _ => Header::Bad,
        }
    }
}

fn number_of(ws: &Vec<Vec<char>>, i: usize) -> (r: Option<u32>)
    ensures
        match r {
            Some(n) => number_at(all_chars(ws@), i as int) == Some(n as nat),
            None => number_at(all_chars(ws@), i as int) is None,
        },
{
    if i < ws.len() {
        unsigned_of(ws[i].as_slice(), u32::MAX)
    } else {
        None
    }
}

/// `a * b`, or the largest `u32`.
fn saturating_product(a: u32, b: u32) -> (r: u32)
    ensures
        r == saturated((a * b) as nat),
{
    assert(0 <= a * b <= 0xffff_ffff * 0xffff_ffff) by (nonlinear_arith)
        requires
            0 <= a <= 0xffff_ffff,
            0 <= b <= 0xffff_ffff,
    ;
    let p: u64 = a as u64 * b as u64;
    if p < u32::MAX as u64 {
        p as u32
    } else {
        u32::MAX
    }
}

/// What a line of the stream announces.
pub fn read_header(line: &str) -> (r: Header)
    ensures
        r == announced(line@),
{
    let chars = chars_of(line);
    if chars.len() == 0 {
        return Header::End;
    }
    let ws = words_of(Blanks::Ascii, chars.as_slice());
    if ws.len() == 0 || !is_text(ws[0].as_slice(), "frame") {
        return Header::Skip;
    }
    match (number_of(&ws, 1), number_of(&ws, 2), number_of(&ws, 3)) {
        (Some(w), Some(h), Some(len)) => {
            let size = saturating_product(saturating_product(w, h), 4);
            if len == size && len <= MAX_FRAME_BYTES {
                Header::Frame { w, h, len }
            } else {
                Header::Implausible
            }
        },
        _ => Header::Bad,
    }
}

/// Why the stream cannot be read on, if it cannot; `quoted` is the line in
/// quotes.
pub open spec fn complaint(header: Header, quoted: Seq<char>) -> Option<Seq<char>> {
    match header {
        Header::End => Some("stream socket closed"@),
        Header::Bad => Some("bad frame header: "@ + quoted),
        Header::Implausible => Some("implausible frame: "@ + quoted),
        _ => None,
    }
}

/// Why the stream cannot be read on after a header. `quoted` is the line in
/// quotes, as the standard library's debug formatting writes it; that form is
/// not stable, so it is left unsaid here and passed on as it is.
pub fn stream_error(header: Header, quoted: &str) -> (r: Option<String>)
    ensures
        match r {
            Some(text) => complaint(header, quoted@) == Some(text@),
            None => complaint(header, quoted@) is None,
        },
{
    match header {
        Header::End => Some(copy_of("stream socket closed")),
        Header::Bad => {
            let mut out = copy_of("bad frame header: ");
            out.append(quoted);
            Some(out)
        },
        Header::Implausible => {
            let mut out = copy_of("implausible frame: ");
            out.append(quoted);
            Some(out)
        },
        _ => None,
    }
}

/// The line that asks for the frames of the focused window.
pub fn subscription() -> (r: String)
    ensures
        r@ == "window focused\n"@,
{
    copy_of("window focused\n")
}

/// A frame of the stream.
pub open spec fn rgba_frame(w: u32, h: u32, data: Seq<u8>) -> Frame {
    Frame::Raw { data, w, h, stride: (4 * w) as u32, rgb: (0, 1, 2) }
}

/// The frame that the bytes after a header are.
pub fn frame_payload(w: u32, h: u32, data: Vec<u8>) -> (r: Payload)
    requires
        4 * w <= u32::MAX,
    ensures
        r@ == rgba_frame(w, h, data@),
{
    Payload::Raw { data, w, h, stride: 4 * w, rgb: (0, 1, 2) }
}

/// An announced frame has four bytes a pixel, no more than the limit, and can
/// be shrunk to any size.
pub proof fn announced_frames_are_sound(
    line: Seq<char>,
    w: u32,
    h: u32,
    len: u32,
    data: Seq<u8>,
    max_edge: nat,
)
    requires
        announced(line) == (Header::Frame { w, h, len }),
        data.len() == len,
        4 * w <= u32::MAX,
        max_edge > 0,
    ensures
        len == 4 * w * h,
        len <= MAX_FRAME_BYTES,
        rgba_frame(w, h, data).sound(),
        rgba_frame(w, h, data).readable(max_edge),
{
    let n = (w * h) as nat;
    assert(n >= 0 && 4 * w * h == n * 4) by (nonlinear_arith)
        requires
            n == w * h,
            w >= 0,
            h >= 0,
    ;
    assert(len == 4 * n);
    sound_frames_are_readable(rgba_frame(w, h, data), max_edge);
}

} // verus!
