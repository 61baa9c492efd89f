//! What a shrunk picture shows of its frame.
use vstd::prelude::*;
use vstd::arithmetic::div_mod::{lemma_fundamental_div_mod, lemma_fundamental_div_mod_converse};
use crate::jpeg::{
    box_sum, corner, frame_jpeg, jpeg_stream, lemma_box_sum_bound, mean, row_sum, shrunk,
};
use crate::payload::{Frame, bad_dimensions, in_bounds, shrink_factor, shrinking_bounds_the_edges};
use crate::stream::image_of;

verus! {

// ---- how much is shrunk -------------------------------------------------------------------------

/// A frame is shrunk by the least factor that brings its edges to `max_edge`, and
/// by one where it is that small already.
pub proof fn frames_are_shrunk_no_more_than_needed(w: nat, h: nat, max_edge: nat)
    requires
        max_edge > 0,
    ensures
        ({
            let f = shrink_factor(w, h, max_edge);
            &&& f >= 1
            &&& w <= f * max_edge && h <= f * max_edge
            &&& f > 1 ==> (f - 1) * max_edge < w || (f - 1) * max_edge < h
        }),
{
    let edge = if w > h {
        w
    } else {
        h
    };
    let g = (edge + max_edge - 1) as nat / max_edge;
    let f = shrink_factor(w, h, max_edge);
    lemma_fundamental_div_mod((edge + max_edge - 1) as int, max_edge as int);
    let r = (edge + max_edge - 1) as nat % max_edge;
    assert(max_edge * g == g * max_edge) by (nonlinear_arith);
    assert(g * max_edge >= edge);
    assert((g - 1) * max_edge < edge || edge == 0) by (nonlinear_arith)
        requires
            g * max_edge + r == edge + max_edge - 1,
            r >= 0,
    ;
    assert(edge == 0 ==> g == 0) by (nonlinear_arith)
        requires
            g * max_edge + r == edge + max_edge - 1,
            r >= 0,
            g >= 0,
            max_edge > 0,
    ;
    assert(f * max_edge >= g * max_edge) by (nonlinear_arith)
        requires
            f >= g,
            max_edge > 0,
    ;
}

// ---- what a pixel is ----------------------------------------------------------------------------

/// The sum of `n` bytes, each `stride` after the one before.
pub open spec fn column_sum(data: Seq<u8>, at: int, stride: int, n: nat) -> int
    decreases n,
{
    if n == 0 {
        0
    } else {
        data[at] + column_sum(data, at + stride, stride, (n - 1) as nat)
    }
}

/// The sum over `cols` columns of `rows` bytes each, the columns four bytes apart.
pub open spec fn square_sum(data: Seq<u8>, at: int, stride: int, rows: nat, cols: nat) -> int
    decreases cols,
{
    if cols == 0 {
        0
    } else {
        column_sum(data, at, stride, rows) + square_sum(
            data,
            at + 4,
            stride,
            rows,
            (cols - 1) as nat,
        )
    }
}

proof fn lemma_row_front(data: Seq<u8>, at: int, n: nat)
    requires
        n > 0,
    ensures
        row_sum(data, at, n) == data[at] + row_sum(data, at + 4, (n - 1) as nat),
    decreases n,
{
    if n > 1 {
        lemma_row_front(data, at, (n - 1) as nat);
        assert(at + 4 * (n - 1) == (at + 4) + 4 * (n - 2));
    } else {
        assert(row_sum(data, at, 0) == 0);
        assert(row_sum(data, at + 4, 0) == 0);
    }
}

proof fn lemma_box_split(data: Seq<u8>, at: int, stride: nat, cols: nat, rows: nat)
    requires
        cols > 0,
    ensures
        box_sum(data, at, stride, cols, rows) == column_sum(data, at, stride as int, rows) + box_sum(
            data,
            at + 4,
            stride,
            (cols - 1) as nat,
            rows,
        ),
    decreases rows,
{
    if rows > 0 {
        let n = (rows - 1) as nat;
        lemma_box_split(data, at, stride, cols, n);
        lemma_row_front(data, at + (rows - 1) * stride, cols);
        lemma_column_back(data, at, stride, rows);
        assert(at + 4 + (rows - 1) * stride == at + (rows - 1) * stride + 4);
    }
}

proof fn lemma_column_back(data: Seq<u8>, at: int, stride: nat, n: nat)
    requires
        n > 0,
    ensures
        column_sum(data, at, stride as int, n) == column_sum(data, at, stride as int, (n - 1) as nat)
            + data[at + (n - 1) * stride],
    decreases n,
{
    if n > 1 {
        lemma_column_back(data, at + stride, stride, (n - 1) as nat);
        assert((at + stride) + (n - 2) * stride == at + (n - 1) * stride) by (nonlinear_arith);
    } else {
        assert((n - 1) * stride == 0) by (nonlinear_arith)
            requires
                n == 1,
        ;
        assert(column_sum(data, at + stride, stride as int, 0) == 0);
        assert(column_sum(data, at, stride as int, 0) == 0);
    }
}

proof fn lemma_no_columns(data: Seq<u8>, at: int, stride: nat, rows: nat)
    ensures
        box_sum(data, at, stride, 0, rows) == 0,
    decreases rows,
{
    if rows > 0 {
        lemma_no_columns(data, at, stride, (rows - 1) as nat);
        assert(row_sum(data, at + (rows - 1) * stride, 0) == 0);
    }
}

proof fn lemma_square(data: Seq<u8>, at: int, stride: nat, cols: nat, rows: nat)
    ensures
        box_sum(data, at, stride, cols, rows) == square_sum(data, at, stride as int, rows, cols),
    decreases cols,
{
    if cols == 0 {
        lemma_no_columns(data, at, stride, rows);
    } else {
        lemma_box_split(data, at, stride, cols, rows);
        lemma_square(data, at + 4, stride, (cols - 1) as nat, rows);
    }
}

/// The shrunk picture has three bytes a pixel, row by row. Each is the mean,
/// rounded down, of the bytes of its colour in the pixel's square of the frame:
/// the square that is `f` times as far from the top and the left, and `f` pixels
/// wide and high.
pub proof fn a_shrunk_pixel_is_the_mean_of_its_square(
    data: Seq<u8>,
    w: nat,
    h: nat,
    stride: nat,
    rgb: (usize, usize, usize),
    f: nat,
    x: nat,
    y: nat,
)
    requires
        f >= 1,
        x < w / f,
        y < h / f,
    ensures
        ({
            let image = shrunk(data, w, h, stride, rgb, f);
            let p = 3 * (y * (w / f) + x) as int;
            let at = (y * f) * stride + (x * f) * 4;
            let red = square_sum(data, at + rgb.0, stride as int, f, f);
            let green = square_sum(data, at + rgb.1, stride as int, f, f);
            let blue = square_sum(data, at + rgb.2, stride as int, f, f);
            &&& image.len() == 3 * ((w / f) * (h / f))
            &&& p + 2 < image.len()
            &&& image[p] * (f * f) <= red < (image[p] + 1) * (f * f)
            &&& image[p + 1] * (f * f) <= green < (image[p + 1] + 1) * (f * f)
            &&& image[p + 2] * (f * f) <= blue < (image[p + 2] + 1) * (f * f)
        }),
{
    let (ow, oh) = (w / f, h / f);
    let image = shrunk(data, w, h, stride, rgb, f);
    let q = (y * ow + x) as int;
    let p = 3 * q;
    assert(oh * ow * 3 == 3 * (ow * oh)) by (nonlinear_arith);
    assert(0 <= q < oh * ow) by (nonlinear_arith)
        requires
            q == y * ow + x,
            x < ow,
            y + 1 <= oh,
    ;
    lemma_fundamental_div_mod_converse(q, ow as int, y as int, x as int);
    assert(p / 3 == q && (p + 1) / 3 == q && (p + 2) / 3 == q);
    assert(p % 3 == 0 && (p + 1) % 3 == 1 && (p + 2) % 3 == 2);
    lemma_mean_is(data, stride, f, x, y, rgb.0 as nat);
    lemma_mean_is(data, stride, f, x, y, rgb.1 as nat);
    lemma_mean_is(data, stride, f, x, y, rgb.2 as nat);
    assert(image[p] == mean(data, stride, f, x, y, rgb.0 as nat) as u8);
    assert(image[p + 1] == mean(data, stride, f, x, y, rgb.1 as nat) as u8);
    assert(image[p + 2] == mean(data, stride, f, x, y, rgb.2 as nat) as u8);
}

proof fn lemma_mean_is(data: Seq<u8>, stride: nat, f: nat, x: nat, y: nat, c: nat)
    requires
        f >= 1,
    ensures
        ({
            let m = mean(data, stride, f, x, y, c);
            let s = square_sum(
                data,
                ((y * f) * stride + (x * f) * 4 + c) as int,
                stride as int,
                f,
                f,
            );
            m <= 255 && m * (f * f) <= s < (m + 1) * (f * f)
        }),
{
    let at = (corner(stride, f, x, y) + c) as int;
    lemma_square(data, at, stride, f, f);
    lemma_box_sum_bound(data, at, stride, f, f);
    let (s, q) = (box_sum(data, at, stride, f, f), f * f);
    assert(q > 0) by (nonlinear_arith)
        requires
            q == f * f,
            f >= 1,
    ;
    lemma_fundamental_div_mod(s as int, q as int);
    let m = s / q;
    assert(m * q <= s < (m + 1) * q) by (nonlinear_arith)
        requires
            s == q * m + s % q,
            0 <= s % q < q,
    ;
    assert(m <= 255) by (nonlinear_arith)
        requires
            m * q <= s,
            s <= 255 * q,
            q > 0,
    ;
}

// ---- the image ----------------------------------------------------------------------------------

/// A frame of good dimensions that does not shrink to nothing is encoded: its
/// shrunk picture, at that picture's own width and height and at the quality
/// asked for.
pub proof fn a_frame_is_encoded_as_its_shrunk_picture(
    data: Seq<u8>,
    w: nat,
    h: nat,
    stride: nat,
    rgb: (usize, usize, usize),
    max_edge: nat,
    quality: u8,
)
    requires
        0 < max_edge < 65536,
        !bad_dimensions(data.len(), w, h, stride),
        w / shrink_factor(w, h, max_edge) > 0,
        h / shrink_factor(w, h, max_edge) > 0,
    ensures
        ({
            let f = shrink_factor(w, h, max_edge);
            &&& w / f <= max_edge && h / f <= max_edge
            &&& frame_jpeg(data, w, h, stride, rgb, max_edge, quality) == Ok::<
                Seq<u8>,
                Seq<char>,
            >(
                jpeg_stream(
                    shrunk(data, w, h, stride, rgb, f),
                    (w / f) as u16,
                    (h / f) as u16,
                    quality,
                ),
            )
        }),
{
    shrinking_bounds_the_edges(w, h, max_edge);
}

/// A frame is bad if it has no pixels or too few bytes for its rows, and only
/// then.
pub proof fn bad_frames_have_too_little(len: nat, w: nat, h: nat, stride: nat)
    ensures
        w == 0 ==> bad_dimensions(len, w, h, stride),
        h == 0 ==> bad_dimensions(len, w, h, stride),
        stride * h > len ==> bad_dimensions(len, w, h, stride),
        w > 0 && h > 0 && stride * h <= len ==> !bad_dimensions(len, w, h, stride),
{
}

/// A frame that is JPEG already is passed on as it is, whatever the edge and the
/// quality; one of raw pixels is encoded from them at these.
pub proof fn images_are_encoded_once(
    bytes: Seq<u8>,
    w: u32,
    h: u32,
    stride: u32,
    rgb: (usize, usize, usize),
    max_edge: nat,
    quality: u8,
)
    ensures
        image_of(Frame::Jpeg(bytes), max_edge, quality) == Ok::<Seq<u8>, Seq<char>>(bytes),
        image_of(Frame::Raw { data: bytes, w, h, stride, rgb }, max_edge, quality) == frame_jpeg(
            bytes,
            w as nat,
            h as nat,
            stride as nat,
            rgb,
            max_edge,
            quality,
        ),
{
}

/// A frame is in bounds exactly if each byte that any shrunk pixel is made of is
/// there.
pub proof fn in_bounds_means_that_every_byte_is_there(
    len: nat,
    w: nat,
    h: nat,
    stride: nat,
    rgb: (usize, usize, usize),
    max_edge: nat,
)
    requires
        max_edge > 0,
        w / shrink_factor(w, h, max_edge) > 0,
        h / shrink_factor(w, h, max_edge) > 0,
    ensures
        ({
            let f = shrink_factor(w, h, max_edge);
            let (rows, cols) = ((h / f) * f, (w / f) * f);
            in_bounds(len, w, h, stride, rgb, max_edge) == (forall|row: nat, col: nat|
                row < rows && col < cols ==> {
                    let at = #[trigger] place(row, col, stride);
                    at + rgb.0 < len && at + rgb.1 < len && at + rgb.2 < len
                })
        }),
{
    let f = shrink_factor(w, h, max_edge);
    let (rows, cols) = ((h / f) * f, (w / f) * f);
    assert(rows >= 1 && cols >= 1) by (nonlinear_arith)
        requires
            rows == (h / f) * f,
            cols == (w / f) * f,
            h / f >= 1,
            w / f >= 1,
            f >= 1,
    ;
    let far = place((rows - 1) as nat, (cols - 1) as nat, stride);
    if in_bounds(len, w, h, stride, rgb, max_edge) {
        assert forall|row: nat, col: nat| row < rows && col < cols implies {
            let at = #[trigger] place(row, col, stride);
            at + rgb.0 < len && at + rgb.1 < len && at + rgb.2 < len
        } by {
            assert(row * stride <= (rows - 1) * stride) by (nonlinear_arith)
                requires
                    row <= rows - 1,
                    stride >= 0,
            ;
        }
    }
    if forall|row: nat, col: nat|
        row < rows && col < cols ==> {
            let at = #[trigger] place(row, col, stride);
            at + rgb.0 < len && at + rgb.1 < len && at + rgb.2 < len
        } {
        assert(far + rgb.0 < len && far + rgb.1 < len && far + rgb.2 < len);
    }
}

/// Where a pixel of a frame begins.
pub open spec fn place(row: nat, col: nat, stride: nat) -> nat {
    row * stride + col * 4
}

} // verus!
