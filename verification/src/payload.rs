//! Captured frames.
use vstd::prelude::*;

verus! {

/// One captured frame. Raw pixels are encoded when they are sent; a JPEG image
/// is passed on as it is.
#[derive(Debug)]
pub enum Payload {
    /// Rows of `stride` bytes, four to a pixel; `rgb` says at which of the
    /// bytes of a pixel its red, green and blue stand.
    Raw { data: Vec<u8>, w: u32, h: u32, stride: u32, rgb: (usize, usize, usize) },
    Jpeg(Vec<u8>),
}

/// A frame, as contracts see it.
pub enum Frame {
    Raw { data: Seq<u8>, w: u32, h: u32, stride: u32, rgb: (usize, usize, usize) },
    Jpeg(Seq<u8>),
}

impl View for Payload {
    type V = Frame;

    open spec fn view(&self) -> Frame {
        match self {
            Payload::Raw { data, w, h, stride, rgb } => Frame::Raw {
                data: data@,
                w: *w,
                h: *h,
                stride: *stride,
                rgb: *rgb,
            },
            Payload::Jpeg(b) => Frame::Jpeg(b@),
        }
    }
}

/// A copy of `bytes`.
pub fn copy_bytes(bytes: &Vec<u8>) -> (r: Vec<u8>)
    ensures
        r@ == bytes@,
{
    vstd::slice::slice_to_vec(bytes.as_slice())
}

impl Clone for Payload {
    fn clone(&self) -> (r: Payload)
        ensures
            r@ == self@,
    {
        match self {
            Payload::Raw { data, w, h, stride, rgb } => Payload::Raw {
                data: copy_bytes(data),
                w: *w,
                h: *h,
                stride: *stride,
                rgb: *rgb,
            },
            Payload::Jpeg(b) => Payload::Jpeg(copy_bytes(b)),
        }
    }
}

// ---- geometry -----------------------------------------------------------------------------------

/// How many pixels of the frame, each way, become one of an image whose longer
/// edge is at most `max_edge`.
pub open spec fn shrink_factor(w: nat, h: nat, max_edge: nat) -> nat {
    let edge = if w > h {
        w
    } else {
        h
    };
    let f = (edge + max_edge - 1) as nat / max_edge;
    if f > 1 {
        f
    } else {
        1
    }
}

pub open spec fn max3(rgb: (usize, usize, usize)) -> nat {
    let m = if rgb.0 > rgb.1 {
        rgb.0
    } else {
        rgb.1
    };
    if m > rgb.2 {
        m as nat
    } else {
        rgb.2 as nat
    }
}

/// Whether a frame has no pixels, or fewer bytes than its rows need.
pub open spec fn bad_dimensions(len: nat, w: nat, h: nat, stride: nat) -> bool {
    w == 0 || h == 0 || stride * h > len
}

/// Whether every byte that shrinking reads is there.
pub open spec fn in_bounds(
    len: nat,
    w: nat,
    h: nat,
    stride: nat,
    rgb: (usize, usize, usize),
    max_edge: nat,
) -> bool {
    let f = shrink_factor(w, h, max_edge);
    let (ow, oh) = (w / f, h / f);
    ow > 0 && oh > 0 ==> (oh * f - 1) * stride + (ow * f - 1) * 4 + max3(rgb) < len
}

impl Frame {
    /// Whether the frame can be encoded with edges up to `max_edge`: it is
    /// refused for its dimensions, or all that is read of it is there.
    pub open spec fn readable(self, max_edge: nat) -> bool {
        match self {
            Frame::Raw { data, w, h, stride, rgb } => bad_dimensions(
                data.len(),
                w as nat,
                h as nat,
                stride as nat,
            ) || (max_edge > 0 && in_bounds(
                data.len(),
                w as nat,
                h as nat,
                stride as nat,
                rgb,
                max_edge,
            )),
            Frame::Jpeg(_) => true,
        }
    }

    /// Whether the rows hold whole pixels and the bytes all the rows.
    pub open spec fn sound(self) -> bool {
        match self {
            Frame::Raw { data, w, h, stride, rgb } => {
                &&& stride >= 4 * w
                &&& data.len() >= stride * h
                &&& rgb.0 < 4 && rgb.1 < 4 && rgb.2 < 4
            },
            Frame::Jpeg(_) => true,
        }
    }
}

/// How many pixels each way become one.
pub fn shrink(w: u32, h: u32, max_edge: u32) -> (f: u32)
    requires
        max_edge > 0,
    ensures
        f == shrink_factor(w as nat, h as nat, max_edge as nat),
        f >= 1,
{
    let edge: u64 = if w > h { w as u64 } else { h as u64 };
    let f: u64 = (edge + max_edge as u64 - 1) / max_edge as u64;
    assert(f <= edge + 1) by (nonlinear_arith)
        requires
            f == (edge + max_edge - 1) / max_edge as int,
            max_edge >= 1,
            edge >= 0,
    ;
    assert(edge == 0 ==> f == 0) by (nonlinear_arith)
        requires
            f == (edge + max_edge - 1) / max_edge as int,
            max_edge >= 1,
    ;
    assert(edge > 0 ==> f <= edge) by (nonlinear_arith)
        requires
            f == (edge + max_edge - 1) / max_edge as int,
            max_edge >= 1,
            edge >= 0,
    ;
    if f > 1 {
        f as u32
    } else {
        1
    }
}

/// Each edge of the shrunk image is at most `max_edge`.
pub proof fn shrinking_bounds_the_edges(w: nat, h: nat, max_edge: nat)
    requires
        max_edge > 0,
    ensures
        w / shrink_factor(w, h, max_edge) <= max_edge,
        h / shrink_factor(w, h, max_edge) <= max_edge,
{
    let edge = if w > h {
        w
    } else {
        h
    };
    let f = shrink_factor(w, h, max_edge);
    let g = (edge + max_edge - 1) as nat / max_edge;
    assert(g * max_edge >= edge) by (nonlinear_arith)
        requires
            g == (edge + max_edge - 1) / max_edge as int,
            max_edge > 0,
            edge >= 0,
    ;
    assert(f * max_edge >= edge) by (nonlinear_arith)
        requires
            g * max_edge >= edge,
            f >= g,
            max_edge > 0,
    ;
    assert(w / f <= max_edge) by (nonlinear_arith)
        requires
            w <= f * max_edge,
            f > 0,
            w >= 0,
    ;
    assert(h / f <= max_edge) by (nonlinear_arith)
        requires
            h <= f * max_edge,
            f > 0,
            h >= 0,
    ;
}

/// A sound frame can be shrunk to any size.
pub proof fn sound_frames_are_readable(frame: Frame, max_edge: nat)
    requires
        frame.sound(),
        max_edge > 0,
    ensures
        frame.readable(max_edge),
{
    if let Frame::Raw { data, w, h, stride, rgb } = frame {
        let f = shrink_factor(w as nat, h as nat, max_edge);
        let (ow, oh) = (w as nat / f, h as nat / f);
        if ow > 0 && oh > 0 {
            assert(ow * f <= w) by (nonlinear_arith)
                requires
                    ow == w as nat / f,
                    f > 0,
                    w >= 0,
            ;
            assert(oh * f <= h) by (nonlinear_arith)
                requires
                    oh == h as nat / f,
                    f > 0,
                    h >= 0,
            ;
            let rows = (oh * f - 1) as int;
            assert(rows * stride + stride <= h * stride) by (nonlinear_arith)
                requires
                    rows + 1 <= h,
                    stride >= 0,
            ;
            assert(h * stride == stride * h) by (nonlinear_arith);
        }
    }
}

impl Payload {
    /// Whether the frame can be encoded with edges up to `max_edge`.
    pub fn readable(&self, max_edge: u32) -> (r: bool)
        ensures
            r == self@.readable(max_edge as nat),
    {
        match self {
            Payload::Raw { data, w, h, stride, rgb } => bad_size(data.len(), *w, *h, *stride) || (
            max_edge > 0 && all_there(data.len(), *w, *h, *stride, *rgb, max_edge)),
            Payload::Jpeg(_) => true,
        }
    }
}

/// Whether all that shrinking reads of a frame's `len` bytes is there.
fn all_there(
    len: usize,
    w: u32,
    h: u32,
    stride: u32,
    rgb: (usize, usize, usize),
    max_edge: u32,
) -> (r: bool)
    requires
        max_edge > 0,
    ensures
        r == in_bounds(
            len as nat,
            w as nat,
            h as nat,
            stride as nat,
            rgb,
            max_edge as nat,
        ),
{
    let f = shrink(w, h, max_edge);
    let ow: u32 = w / f;
    let oh: u32 = h / f;
    if ow == 0 || oh == 0 {
        return true;
    }
    assert(1 <= ow * f <= w && 1 <= oh * f <= h) by (nonlinear_arith)
        requires
            ow == w as int / f as int,
            oh == h as int / f as int,
            ow >= 1,
            oh >= 1,
            f >= 1,
    ;
    let rows: u128 = (oh * f - 1) as u128;
    let cols: u128 = (ow * f - 1) as u128;
    assert(rows * stride <= 0xffff_ffff * 0xffff_ffff) by (nonlinear_arith)
        requires
            rows <= 0xffff_ffff,
            stride <= 0xffff_ffff,
    ;
    let mut top: usize = rgb.0;
    if rgb.1 > top {
        top = rgb.1;
    }
    if rgb.2 > top {
        top = rgb.2;
    }
    rows * stride as u128 + cols * 4 + (top as u128) < len as u128
}

/// Whether a frame of `len` bytes has no pixels, or fewer bytes than its rows
/// need.
pub fn bad_size(len: usize, w: u32, h: u32, stride: u32) -> (r: bool)
    ensures
        r == bad_dimensions(len as nat, w as nat, h as nat, stride as nat),
{
    assert(0 <= stride * h <= 0xffff_ffff * 0xffff_ffff) by (nonlinear_arith)
        requires
            0 <= stride <= 0xffff_ffff,
            0 <= h <= 0xffff_ffff,
    ;
    w == 0 || h == 0 || stride as u128 * h as u128 > len as u128
}

} // verus!
