//! Shrinking and encoding frames.
use cce_remote::jpeg::{downscale_encode, shrink_rgb};
use cce_remote::payload::{Payload, shrink};
use cce_remote::stream::encode;

/// `w` by `h` pixels whose bytes all differ from those around them.
fn pixels(w: u32, h: u32, stride: u32) -> Vec<u8> {
    let mut data = vec![0xee; (stride * h) as usize];
    for y in 0..h {
        for x in 0..w {
            for c in 0..4 {
                data[(y * stride + x * 4 + c) as usize] = (x * 37 + y * 59 + c * 83) as u8;
            }
        }
    }
    data
}

/// What the encoder makes of the same pixels.
fn direct(rgb: &[u8], w: u16, h: u16, quality: u8) -> Vec<u8> {
    let mut out = Vec::new();
    jpeg_encoder::Encoder::new(&mut out, quality)
        .encode(rgb, w, h, jpeg_encoder::ColorType::Rgb)
        .unwrap();
    out
}

#[test]
fn a_small_frame_keeps_its_pixels() {
    let data = pixels(3, 2, 16);
    let (w, h, rgb) = shrink_rgb(&data, 3, 2, 16, (2, 1, 0), 3);
    assert_eq!((w, h), (3, 2));
    let mut expected = Vec::new();
    for y in 0..2usize {
        for x in 0..3usize {
            for c in [2, 1, 0] {
                expected.push(data[y * 16 + x * 4 + c]);
            }
        }
    }
    assert_eq!(rgb, expected);
}

#[test]
fn a_large_frame_is_averaged() {
    // Two by two boxes of a 5 by 4 frame; the last column is left out.
    let data = pixels(5, 4, 24);
    let (w, h, rgb) = shrink_rgb(&data, 5, 4, 24, (0, 1, 2), 3);
    assert_eq!((w, h), (2, 2));
    for oy in 0..2usize {
        for ox in 0..2usize {
            for c in 0..3usize {
                let mut sum = 0u32;
                for (sy, sx) in [(0, 0), (0, 1), (1, 0), (1, 1)] {
                    sum += u32::from(data[(oy * 2 + sy) * 24 + (ox * 2 + sx) * 4 + c]);
                }
                assert_eq!(u32::from(rgb[(oy * 2 + ox) * 3 + c]), sum / 4);
            }
        }
    }
}

#[test]
fn edges_are_bounded() {
    for (w, h, edge, f) in [
        (1, 1, 1400, 1), (1400, 900, 1400, 1), (1401, 900, 1400, 2), (900, 2801, 1400, 3),
        (0, 0, 560, 1), (u32::MAX, 1, 1, u32::MAX), (u32::MAX, u32::MAX, u32::MAX, 1),
    ] {
        assert_eq!(shrink(w, h, edge), f, "{w}x{h} to {edge}");
        assert!(w / f <= edge && h / f <= edge);
    }
}

#[test]
fn a_frame_is_encoded_by_the_encoder() {
    let data = pixels(40, 30, 160);
    let (w, h, rgb) = shrink_rgb(&data, 40, 30, 160, (0, 1, 2), 20);
    assert_eq!((w, h), (20, 15));
    let jpeg = downscale_encode(&data, 40, 30, 160, (0, 1, 2), 20, 60).unwrap();
    assert_eq!(jpeg, direct(&rgb, 20, 15, 60));
    assert_ne!(jpeg, rgb);
    assert!(jpeg.starts_with(&[0xff, 0xd8]) && jpeg.ends_with(&[0xff, 0xd9]));
    assert_ne!(jpeg, downscale_encode(&data, 40, 30, 160, (0, 1, 2), 20, 10).unwrap());
    assert_ne!(jpeg, downscale_encode(&data, 40, 30, 160, (2, 1, 0), 20, 60).unwrap());
}

#[test]
fn bad_dimensions_are_refused() {
    let data = vec![0u8; 16];
    for (w, h, stride) in [(0, 2, 8), (2, 0, 8), (2, 3, 8), (2, 2, 9), (1, u32::MAX, u32::MAX)] {
        assert_eq!(
            downscale_encode(&data, w, h, stride, (0, 1, 2), 560, 60),
            Err("bad frame dimensions".to_string()),
            "{w}x{h}, {stride}"
        );
    }
    assert!(downscale_encode(&data, 2, 2, 8, (0, 1, 2), 560, 60).is_ok());
    // They are looked at first, so the edge does not matter.
    for (w, h, stride) in [(0, 0, 0), (0, 2, 8), (2, 3, 8)] {
        let refused = Err("bad frame dimensions".to_string());
        assert_eq!(downscale_encode(&data, w, h, stride, (0, 1, 2), 0, 60), refused);
        let raw = Payload::Raw { data: data.clone(), w, h, stride, rgb: (0, 1, 2) };
        assert_eq!(encode(&raw, 0, 60), refused);
    }
}

#[test]
fn a_frame_that_shrinks_to_nothing_is_refused() {
    let data = vec![0u8; 4 * 1000];
    assert_eq!(
        downscale_encode(&data, 1, 1000, 4, (0, 1, 2), 100, 60),
        Err("Image dimensions must be non zero: 0x100".to_string())
    );
    assert_eq!(
        downscale_encode(&data, 1000, 1, 4000, (0, 1, 2), 100, 60),
        Err("Image dimensions must be non zero: 100x0".to_string())
    );
}

#[test]
fn raw_frames_are_encoded_and_others_passed_on() {
    let data = pixels(8, 8, 32);
    let raw = Payload::Raw { data: data.clone(), w: 8, h: 8, stride: 32, rgb: (0, 1, 2) };
    assert_eq!(
        encode(&raw, 560, 60),
        downscale_encode(&data, 8, 8, 32, (0, 1, 2), 560, 60)
    );
    assert_eq!(encode(&Payload::Jpeg(vec![1, 2, 3]), 560, 60), Ok(vec![1, 2, 3]));
}

#[test]
fn a_frame_is_readable_if_its_bytes_are_there() {
    let frame = |len: usize, w, h, stride, rgb| Payload::Raw { data: vec![0; len], w, h, stride, rgb };
    assert!(frame(16, 2, 2, 8, (0, 1, 2)).readable(560));
    assert!(frame(16, 2, 2, 8, (0, 1, 3)).readable(560));
    assert!(!frame(16, 2, 2, 8, (0, 1, 4)).readable(560));
    // Refused for its dimensions, so nothing is read.
    assert!(frame(15, 2, 2, 8, (0, 1, 2)).readable(560));
    // Rows shorter than their pixels, but enough bytes behind them.
    assert!(!frame(8, 2, 2, 4, (0, 1, 2)).readable(560));
    assert!(frame(12, 2, 2, 4, (0, 1, 2)).readable(560));
    assert!(!frame(16, 2, 2, 8, (0, 1, 2)).readable(0));
    assert!(frame(15, 2, 2, 8, (0, 1, 2)).readable(0));
    assert!(frame(0, 0, 0, 0, (9, 9, 9)).readable(0));
    assert!(Payload::Jpeg(Vec::new()).readable(560));
}

#[test]
fn a_copy_of_a_frame_is_the_same_frame() {
    let raw = Payload::Raw { data: vec![1, 2, 3, 4], w: 1, h: 1, stride: 4, rgb: (2, 1, 0) };
    match raw.clone() {
        Payload::Raw { data, w, h, stride, rgb } => {
            assert_eq!((data, w, h, stride, rgb), (vec![1, 2, 3, 4], 1, 1, 4, (2, 1, 0)));
        }
        Payload::Jpeg(_) => panic!("another kind of frame"),
    }
    assert!(matches!(Payload::Jpeg(vec![5]).clone(), Payload::Jpeg(b) if b == [5]));
}
