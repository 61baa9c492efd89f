//! Shrinking raw frames and encoding them as JPEG images.
use vstd::prelude::*;
use vstd::arithmetic::div_mod::lemma_fundamental_div_mod_converse;
use crate::digits::decimal;
use crate::payload::{bad_dimensions, bad_size, in_bounds, max3, shrink, shrink_factor};
use crate::text::copy_of;

verus! {

// ---- shrinking ----------------------------------------------------------------------------------

/// The sum of `n` bytes, each four after the one before, from `at` on.
pub open spec fn row_sum(data: Seq<u8>, at: int, n: nat) -> nat
    decreases n,
{
    if n == 0 {
        0
    } else {
        row_sum(data, at, (n - 1) as nat) + data[at + 4 * (n - 1)] as nat
    }
}

/// The sum over `rows` rows of `cols` pixels each, of the byte at `at` in the
/// first pixel and at the same place in the others.
pub open spec fn box_sum(data: Seq<u8>, at: int, stride: nat, cols: nat, rows: nat) -> nat
    decreases rows,
{
    if rows == 0 {
        0
    } else {
        box_sum(data, at, stride, cols, (rows - 1) as nat) + row_sum(
            data,
            at + (rows - 1) * stride,
            cols,
        )
    }
}

/// Where the box of the shrunk pixel (`x`, `y`) begins.
pub open spec fn corner(stride: nat, f: nat, x: nat, y: nat) -> nat {
    y * f * stride + x * f * 4
}

/// The byte at `c` of the shrunk pixel (`x`, `y`): the mean over its box.
pub open spec fn mean(data: Seq<u8>, stride: nat, f: nat, x: nat, y: nat, c: nat) -> nat {
    box_sum(data, (corner(stride, f, x, y) + c) as int, stride, f, f) / (f * f)
}

/// The red, green and blue of each pixel of the shrunk image, row by row.
pub open spec fn shrunk(
    data: Seq<u8>,
    w: nat,
    h: nat,
    stride: nat,
    rgb: (usize, usize, usize),
    f: nat,
) -> Seq<u8> {
    let ow = w / f;
    Seq::new(
        (h / f) * ow * 3,
        |i: int|
            {
                let p = i as nat / 3;
                let c = if i % 3 == 0 {
                    rgb.0
                } else if i % 3 == 1 {
                    rgb.1
                } else {
                    rgb.2
                };
                mean(data, stride, f, p % ow, p / ow, c as nat) as u8
            },
    )
}

proof fn lemma_row_sum_bound(data: Seq<u8>, at: int, n: nat)
    ensures
        row_sum(data, at, n) <= 255 * n,
    decreases n,
{
    if n > 0 {
        lemma_row_sum_bound(data, at, (n - 1) as nat);
    }
}

pub proof fn lemma_box_sum_bound(data: Seq<u8>, at: int, stride: nat, cols: nat, rows: nat)
    ensures
        box_sum(data, at, stride, cols, rows) <= 255 * (cols * rows),
    decreases rows,
{
    if rows > 0 {
        lemma_box_sum_bound(data, at, stride, cols, (rows - 1) as nat);
        lemma_row_sum_bound(data, at + (rows - 1) * stride, cols);
        assert(cols * rows == cols * (rows - 1) + cols) by (nonlinear_arith)
            requires
                rows > 0,
        ;
    } else {
        assert(cols * rows == 0) by (nonlinear_arith)
            requires
                rows == 0,
        ;
    }
}

fn row_total(data: &[u8], at: usize, n: u32) -> (r: u64)
    requires
        n >= 1,
        at + 4 * (n - 1) < data@.len(),
    ensures
        r == row_sum(data@, at as int, n as nat),
{
    let mut sum: u64 = 0;
    let mut i: u32 = 0;
    let len = data.len();
    while i < n
        invariant
            i <= n,
            at + 4 * (n - 1) < data@.len(),
            len == data@.len(),
            sum == row_sum(data@, at as int, i as nat),
            sum <= 255 * i,
        decreases n - i,
    {
        sum = sum + data[at + 4 * (i as usize)] as u64;
        i = i + 1;
    }
    sum
}

fn box_total(data: &[u8], at: usize, stride: u32, f: u32) -> (r: u128)
    requires
        f >= 1,
        at + (f - 1) * stride + 4 * (f - 1) < data@.len(),
    ensures
        r == box_sum(data@, at as int, stride as nat, f as nat, f as nat),
{
    let mut sum: u128 = 0;
    let mut i: u32 = 0;
    let n = data.len();
    while i < f
        invariant
            f >= 1,
            i <= f,
            n == data@.len(),
            at + (f - 1) * stride + 4 * (f - 1) < data@.len(),
            sum == box_sum(data@, at as int, stride as nat, f as nat, i as nat),
        decreases f - i,
    {
        assert(0 <= i * stride <= (f - 1) * stride) by (nonlinear_arith)
            requires
                0 <= i <= f - 1,
                stride >= 0,
        ;
        proof {
            lemma_box_sum_bound(data@, at as int, stride as nat, f as nat, i as nat);
            assert(255 * (f * i) <= 255 * (0xffff_ffff * 0xffff_ffff)) by (nonlinear_arith)
                requires
                    0 <= f <= 0xffff_ffff,
                    0 <= i <= 0xffff_ffff,
            ;
        }
        let row = row_total(data, at + (i as usize) * (stride as usize), f);
        sum = sum + row as u128;
        i = i + 1;
    }
    sum
}

/// The box of a shrunk pixel lies in the frame.
proof fn lemma_box_inside(stride: nat, f: nat, x: nat, y: nat, ow: nat, oh: nat)
    requires
        x < ow,
        y < oh,
        f >= 1,
    ensures
        corner(stride, f, x, y) + (f - 1) * stride + 4 * (f - 1) <= (oh * f - 1) * stride + (ow * f
            - 1) * 4,
        y * f + f <= oh * f,
        x * f + f <= ow * f,
{
    assert(y * f + f <= oh * f) by (nonlinear_arith)
        requires
            y + 1 <= oh,
            f >= 1,
    ;
    assert(x * f + f <= ow * f) by (nonlinear_arith)
        requires
            x + 1 <= ow,
            f >= 1,
    ;
    let a = y * f;
    let b = (oh * f - 1) as int;
    assert(a * stride + (f - 1) * stride <= b * stride) by (nonlinear_arith)
        requires
            a + (f - 1) <= b,
            stride >= 0,
    ;
}

fn mean_of(
    data: &[u8],
    stride: u32,
    f: u32,
    x: u32,
    y: u32,
    ow: u32,
    oh: u32,
    c: usize,
) -> (r: u8)
    requires
        f >= 1,
        x < ow,
        y < oh,
        ow * f <= u32::MAX,
        oh * f <= u32::MAX,
        (oh * f - 1) * stride + (ow * f - 1) * 4 + c < data@.len(),
    ensures
        r == mean(data@, stride as nat, f as nat, x as nat, y as nat, c as nat) as u8,
{
    let n = data.len();
    proof {
        lemma_box_inside(stride as nat, f as nat, x as nat, y as nat, ow as nat, oh as nat);
        assert((f - 1) * stride >= 0) by (nonlinear_arith)
            requires
                f >= 1,
                stride >= 0,
        ;
        assert(0 <= y * f * stride && 0 <= y * f && 0 <= x * f) by (nonlinear_arith)
            requires
                y >= 0,
                x >= 0,
                f >= 1,
                stride >= 0,
        ;
    }
    let at: usize = ((y * f) as usize) * (stride as usize) + ((x * f) as usize) * 4 + c;
    let total = box_total(data, at, stride, f);
    proof {
        lemma_box_sum_bound(data@, at as int, stride as nat, f as nat, f as nat);
        assert(1 <= f * f <= 0xffff_ffff * 0xffff_ffff) by (nonlinear_arith)
            requires
                1 <= f <= 0xffff_ffff,
        ;
        let q = f * f;
        assert(total as int / q <= 255) by (nonlinear_arith)
            requires
                0 <= total <= 255 * q,
                q >= 1,
        ;
    }
    (total / (f as u128 * f as u128)) as u8
}

/// Shrinks a frame so that its longer edge is at most `max_edge`. Returns the
/// width, the height and the red, green and blue of each pixel.
pub fn shrink_rgb(
    data: &[u8],
    w: u32,
    h: u32,
    stride: u32,
    rgb: (usize, usize, usize),
    max_edge: u32,
) -> (r: (u32, u32, Vec<u8>))
    requires
        max_edge > 0,
        in_bounds(data@.len(), w as nat, h as nat, stride as nat, rgb, max_edge as nat),
    ensures
        ({
            let f = shrink_factor(w as nat, h as nat, max_edge as nat);
            &&& r.0 == w as nat / f
            &&& r.1 == h as nat / f
            &&& r.2@ == shrunk(data@, w as nat, h as nat, stride as nat, rgb, f)
        }),
{
    let f = shrink(w, h, max_edge);
    let ow: u32 = w / f;
    let oh: u32 = h / f;
    assert(0 <= ow * f <= w && 0 <= oh * f <= h) by (nonlinear_arith)
        requires
            ow == w as int / f as int,
            oh == h as int / f as int,
            f >= 1,
    ;
    let ghost image = shrunk(data@, w as nat, h as nat, stride as nat, rgb, f as nat);
    let mut out: Vec<u8> = Vec::new();
    let mut y: u32 = 0;
    while y < oh
        invariant
            y <= oh,
            f >= 1,
            ow == w as nat / f as nat,
            oh == h as nat / f as nat,
            0 <= ow * f <= w,
            0 <= oh * f <= h,
            ow > 0 && oh > 0 ==> (oh * f - 1) * stride + (ow * f - 1) * 4 + max3(rgb) < data@.len(),
            image == shrunk(data@, w as nat, h as nat, stride as nat, rgb, f as nat),
            out@.len() == y * ow * 3,
            forall|i: int| 0 <= i < out@.len() ==> out@[i] == image[i],
            y * ow * 3 <= image.len(),
        decreases oh - y,
    {
        let mut x: u32 = 0;
        assert((y + 1) * ow * 3 <= oh * ow * 3 && (y + 1) * ow == y * ow + ow && y * ow >= 0)
            by (nonlinear_arith)
            requires
                y + 1 <= oh,
                y >= 0,
                ow >= 0,
        ;
        while x < ow
            invariant
                x <= ow,
                y < oh,
                f >= 1,
                ow == w as nat / f as nat,
                oh == h as nat / f as nat,
                0 <= ow * f <= w,
                0 <= oh * f <= h,
                ow > 0 && oh > 0 ==> (oh * f - 1) * stride + (ow * f - 1) * 4 + max3(rgb)
                    < data@.len(),
                image == shrunk(data@, w as nat, h as nat, stride as nat, rgb, f as nat),
                out@.len() == (y * ow + x) * 3,
                forall|i: int| 0 <= i < out@.len() ==> out@[i] == image[i],
                (y + 1) * ow * 3 <= image.len(),
                (y + 1) * ow == y * ow + ow,
                y * ow >= 0,
            decreases ow - x,
        {
            let ghost n = out@.len() as int;
            proof {
                lemma_fundamental_div_mod_converse(y * ow + x, ow as int, y as int, x as int);
                assert(n / 3 == y * ow + x && (n + 1) / 3 == y * ow + x && (n + 2) / 3 == y * ow + x);
                assert(n % 3 == 0 && (n + 1) % 3 == 1 && (n + 2) % 3 == 2);
            }
            out.push(mean_of(data, stride, f, x, y, ow, oh, rgb.0));
            out.push(mean_of(data, stride, f, x, y, ow, oh, rgb.1));
            out.push(mean_of(data, stride, f, x, y, ow, oh, rgb.2));
            x = x + 1;
        }
        y = y + 1;
    }
    assert(out@ =~= image);
    (ow, oh, out)
}

/// A frame that is no longer than `max_edge` either way keeps its pixels.
pub proof fn small_frames_keep_their_pixels(
    data: Seq<u8>,
    w: nat,
    h: nat,
    stride: nat,
    rgb: (usize, usize, usize),
    max_edge: nat,
    x: nat,
    y: nat,
)
    requires
        w <= max_edge,
        h <= max_edge,
        x < w,
        y < h,
    ensures
        shrink_factor(w, h, max_edge) == 1,
        shrunk(data, w, h, stride, rgb, 1).len() == h * w * 3,
        ({
            let p = ((y * w + x) * 3) as int;
            let at = (y * stride + x * 4) as int;
            let image = shrunk(data, w, h, stride, rgb, 1);
            &&& p + 2 < h * w * 3
            &&& image[p] == data[at + rgb.0]
            &&& image[p + 1] == data[at + rgb.1]
            &&& image[p + 2] == data[at + rgb.2]
        }),
{
    let edge = if w > h {
        w
    } else {
        h
    };
    assert((edge + max_edge - 1) as nat / max_edge <= 1) by (nonlinear_arith)
        requires
            0 < edge <= max_edge,
    ;
    let p = ((y * w + x) * 3) as int;
    let image = shrunk(data, w, h, stride, rgb, 1);
    assert(p + 2 < h * w * 3 && p >= 0) by (nonlinear_arith)
        requires
            p == (y * w + x) * 3,
            x < w,
            y + 1 <= h,
    ;
    assert(w / 1 == w && h / 1 == h);
    lemma_fundamental_div_mod_converse((y * w + x) as int, w as int, y as int, x as int);
    assert(p / 3 == y * w + x && (p + 1) / 3 == y * w + x && (p + 2) / 3 == y * w + x);
    assert(y * 1 * stride + x * 1 * 4 == y * stride + x * 4) by (nonlinear_arith);
    let at = (y * stride + x * 4) as int;
    lemma_single(data, at + rgb.0, stride);
    lemma_single(data, at + rgb.1, stride);
    lemma_single(data, at + rgb.2, stride);
    assert(image[p] == data[at + rgb.0]);
    assert(image[p + 1] == data[at + rgb.1]);
    assert(image[p + 2] == data[at + rgb.2]);
}

/// A box of one pixel is that pixel.
proof fn lemma_single(data: Seq<u8>, at: int, stride: nat)
    ensures
        box_sum(data, at, stride, 1, 1) / (1 * 1) == data[at],
{
    reveal_with_fuel(row_sum, 2);
    assert(box_sum(data, at, stride, 1, 0) == 0);
    assert((1 - 1) * stride == 0);
    assert(row_sum(data, at, 1) == data[at]);
    let n = box_sum(data, at, stride, 1, 1);
    assert(n == data[at] as nat);
    assert(n / (1 * 1) == n) by (nonlinear_arith);
}

// ---- encoding -----------------------------------------------------------------------------------

/// The JPEG image that the `jpeg-encoder` crate makes of `w` by `h` pixels,
/// three bytes each, at `quality`.
pub uninterp spec fn jpeg_stream(rgb: Seq<u8>, w: u16, h: u16, quality: u8) -> Seq<u8>;

/// What the encoder says of an image with fewer bytes than its pixels need.
pub open spec fn too_short(length: nat, required: nat) -> Seq<char> {
    "Image data too small for dimensions and color_type: "@ + decimal(length) + " need at least "@
        + decimal(required)
}

/// What the encoder says of an image without pixels.
pub open spec fn no_pixels(w: nat, h: nat) -> Seq<char> {
    "Image dimensions must be non zero: "@ + decimal(w) + "x"@ + decimal(h)
}

/// Calls `jpeg_encoder::Encoder::new` on a fresh vector and then
/// `Encoder::encode` with `ColorType::Rgb`. Claimed of it: an image shorter
/// than three bytes a pixel is refused first, one without pixels next, each
/// with the text of the error's `Display`; of any other image the bytes
/// written are a function of the pixels, the dimensions and the quality.
/// What those bytes are is left unsaid.
#[verifier::external_body]
fn encode_rgb(rgb: &[u8], w: u16, h: u16, quality: u8) -> (r: Result<Vec<u8>, String>)
    requires
        w * h * 3 <= usize::MAX,
    ensures
        match r {
            Ok(bytes) => rgb@.len() >= w * h * 3 && w > 0 && h > 0 && bytes@ == jpeg_stream(
                rgb@,
                w,
                h,
                quality,
            ),
            Err(text) => if rgb@.len() < w * h * 3 {
                text@ == too_short(rgb@.len(), (w * h * 3) as nat)
            } else {
                (w == 0 || h == 0) && text@ == no_pixels(w as nat, h as nat)
            },
        },
{
    let mut out: Vec<u8> = Vec::new();
    let encoder = jpeg_encoder::Encoder::new(&mut out, quality);
    match encoder.encode(rgb, w, h, jpeg_encoder::ColorType::Rgb) {
        Ok(()) => Ok(out),
        Err(e) => Err(e.to_string()),
    }
}

/// The JPEG image of a frame shrunk to `max_edge`, or why there is none. The
/// encoder counts its edges modulo 65536.
pub open spec fn frame_jpeg(
    data: Seq<u8>,
    w: nat,
    h: nat,
    stride: nat,
    rgb: (usize, usize, usize),
    max_edge: nat,
    quality: u8,
) -> Result<Seq<u8>, Seq<char>> {
    let f = shrink_factor(w, h, max_edge);
    let (ew, eh) = ((w / f) % 65536, (h / f) % 65536);
    if bad_dimensions(data.len(), w, h, stride) {
        Err("bad frame dimensions"@)
    } else if ew == 0 || eh == 0 {
        Err(no_pixels(ew, eh))
    } else {
        Ok(jpeg_stream(shrunk(data, w, h, stride, rgb, f), ew as u16, eh as u16, quality))
    }
}

/// A result, as contracts see it.
pub open spec fn encoded(r: Result<Vec<u8>, String>) -> Result<Seq<u8>, Seq<char>> {
    match r {
        Ok(bytes) => Ok(bytes@),
        Err(text) => Err(text@),
    }
}

/// Shrinks 32-bit pixels so that neither edge is above `max_edge`, each pixel
/// the mean of a square of the frame's, and encodes them as JPEG at `quality`.
/// `rgb` gives the places of red, green and blue within a pixel's four bytes.
pub fn downscale_encode(
    data: &[u8],
    w: u32,
    h: u32,
    stride: u32,
    rgb: (usize, usize, usize),
    max_edge: u32,
    quality: u8,
) -> (r: Result<Vec<u8>, String>)
    requires
        bad_dimensions(data@.len(), w as nat, h as nat, stride as nat) || (max_edge > 0
            && in_bounds(
            data@.len(),
            w as nat,
            h as nat,
            stride as nat,
            rgb,
            max_edge as nat,
        )),
    ensures
        encoded(r) == frame_jpeg(
            data@,
            w as nat,
            h as nat,
            stride as nat,
            rgb,
            max_edge as nat,
            quality,
        ),
{
    if bad_size(data.len(), w, h, stride) {
        return Err(copy_of("bad frame dimensions"));
    }
    let (ow, oh, pixels) = shrink_rgb(data, w, h, stride, rgb, max_edge);
    let ew: u16 = (ow % 65536) as u16;
    let eh: u16 = (oh % 65536) as u16;
    let n = pixels.len();
    assert(ew * eh * 3 <= oh * ow * 3) by (nonlinear_arith)
        requires
            0 <= ew <= ow,
            0 <= eh <= oh,
    ;
    encode_rgb(pixels.as_slice(), ew, eh, quality)
}

/// A frame is refused for its dimensions exactly if they are bad, whatever the
/// edge, the quality and the places of its colours.
pub proof fn bad_dimensions_are_refused_as_such(
    data: Seq<u8>,
    w: nat,
    h: nat,
    stride: nat,
    rgb: (usize, usize, usize),
    max_edge: nat,
    quality: u8,
)
    ensures
        (frame_jpeg(data, w, h, stride, rgb, max_edge, quality) == Err::<Seq<u8>, Seq<char>>(
            "bad frame dimensions"@,
        )) == bad_dimensions(data.len(), w, h, stride),
{
    let f = shrink_factor(w, h, max_edge);
    let other = no_pixels((w / f) % 65536, (h / f) % 65536);
    reveal_strlit("bad frame dimensions");
    reveal_strlit("Image dimensions must be non zero: ");
    assert(other[0] == 'I');
    assert("bad frame dimensions"@[0] == 'b');
}

} // verus!
