use snapcrop::buffer::PixelBuffer;
use snapcrop::crop::{auto_crop, crop, OutOfBounds};
use snapcrop::levels::{auto_brighten, remap_channel};
use snapcrop::scan::{row_bounds, scan_borders, BoundingRect, NoContentFound, RowBounds};
use snapcrop::select::{contains_bytes, latest_index};

const DARK: [u8; 3] = [0, 0, 0];
const BRIGHT: [u8; 3] = [200, 200, 200];

fn build(width: u32, height: u32, pixel: impl Fn(u32, u32) -> [u8; 3]) -> PixelBuffer {
    let mut data = Vec::new();
    for y in 0..height {
        for x in 0..width {
            data.extend_from_slice(&pixel(x, y));
        }
    }
    PixelBuffer::from_raw(width, height, data).expect("length matches")
}

fn pixel_at(img: &PixelBuffer, x: u32, y: u32) -> [u8; 3] {
    let i = ((y * img.width + x) * 3) as usize;
    [img.data[i], img.data[i + 1], img.data[i + 2]]
}

#[test]
fn all_background_has_no_content() {
    let img = build(7, 5, |x, y| [(x * 2) as u8, (y * 3) as u8, 15]);
    assert_eq!(scan_borders(&img), Err(NoContentFound));
    assert!(auto_crop(&img).is_err());
}

#[test]
fn empty_picture_has_no_content() {
    let img = build(0, 0, |_, _| BRIGHT);
    assert_eq!(scan_borders(&img), Err(NoContentFound));
}

#[test]
fn all_foreground_spans_whole_picture() {
    let img = build(6, 4, |_, _| BRIGHT);
    assert_eq!(
        scan_borders(&img),
        Ok(BoundingRect { left: 0, top: 0, width: 6, height: 4 })
    );
}

#[test]
fn uniform_border_is_removed() {
    let (w, h, b) = (10u32, 8u32, 2u32);
    let img = build(w, h, |x, y| {
        if x >= b && x < w - b && y >= b && y < h - b {
            BRIGHT
        } else {
            DARK
        }
    });
    assert_eq!(
        scan_borders(&img),
        Ok(BoundingRect { left: b, top: b, width: w - 2 * b, height: h - 2 * b })
    );
}

#[test]
fn two_bands_give_union() {
    // rows 1..3 bright in columns 2..5, row 3 dark, rows 4..6 bright in columns 1..4
    let img = build(8, 7, |x, y| {
        if (1..3).contains(&y) && (2..5).contains(&x) {
            BRIGHT
        } else if (4..6).contains(&y) && (1..4).contains(&x) {
            BRIGHT
        } else {
            DARK
        }
    });
    assert_eq!(
        scan_borders(&img),
        Ok(BoundingRect { left: 1, top: 1, width: 4, height: 5 })
    );
}

#[test]
fn row_bounds_tags_empty_rows() {
    let img = build(4, 1, |_, _| DARK);
    assert_eq!(row_bounds(&img, 0), RowBounds::Empty);
}

#[test]
fn row_bounds_keeps_outer_extrema() {
    let row = [DARK, BRIGHT, DARK, DARK, BRIGHT, BRIGHT, DARK];
    let img = build(row.len() as u32, 1, |x, _| row[x as usize]);
    assert_eq!(row_bounds(&img, 0), RowBounds::Segment { left: 1, right: 6 });
}

#[test]
fn row_bounds_single_content_pixel() {
    let row = [DARK, BRIGHT, DARK];
    let img = build(3, 1, |x, _| row[x as usize]);
    assert_eq!(row_bounds(&img, 0), RowBounds::Segment { left: 1, right: 2 });
}

#[test]
fn luma_uses_perceptual_weights() {
    // luma of 16-grey is exactly 16; 15-grey is background
    let greys = build(2, 1, |x, _| if x == 0 { [16, 16, 16] } else { [15, 15, 15] });
    assert_eq!(row_bounds(&greys, 0), RowBounds::Segment { left: 0, right: 1 });
    // blue 60 has luma 4 while red 60 has luma 12 and green 30 has luma 21
    let colours = build(3, 1, |x, _| match x {
        0 => [0, 0, 60],
        1 => [60, 0, 0],
        _ => [0, 30, 0],
    });
    assert_eq!(row_bounds(&colours, 0), RowBounds::Segment { left: 2, right: 3 });
}

#[test]
fn crop_copies_rectangle() {
    let src = build(5, 4, |x, y| [x as u8, y as u8, (x * 10 + y) as u8]);
    let rect = BoundingRect { left: 1, top: 2, width: 3, height: 2 };
    let out = crop(&src, rect).expect("fits");
    assert_eq!((out.width, out.height), (3, 2));
    assert_eq!(out.data.len(), 3 * 2 * 3);
    for y in 0..2 {
        for x in 0..3 {
            assert_eq!(pixel_at(&out, x, y), pixel_at(&src, 1 + x, 2 + y));
        }
    }
}

#[test]
fn crop_rejects_bad_rectangles() {
    let src = build(5, 4, |_, _| BRIGHT);
    let past_right = BoundingRect { left: 3, top: 0, width: 3, height: 1 };
    let past_bottom = BoundingRect { left: 0, top: 1, width: 1, height: 4 };
    let no_width = BoundingRect { left: 0, top: 0, width: 0, height: 2 };
    let no_height = BoundingRect { left: 0, top: 0, width: 2, height: 0 };
    assert_eq!(crop(&src, past_right).err(), Some(OutOfBounds));
    assert_eq!(crop(&src, past_bottom).err(), Some(OutOfBounds));
    assert_eq!(crop(&src, no_width).err(), Some(OutOfBounds));
    assert_eq!(crop(&src, no_height).err(), Some(OutOfBounds));
}

#[test]
fn auto_crop_keeps_content() {
    let img = build(6, 5, |x, y| {
        if x == 2 && y == 1 {
            [90, 40, 30]
        } else if x == 4 && y == 3 {
            [250, 250, 250]
        } else {
            [3, 3, 3]
        }
    });
    let out = auto_crop(&img).expect("has content");
    assert_eq!((out.width, out.height), (3, 3));
    assert_eq!(pixel_at(&out, 0, 0), [90, 40, 30]);
    assert_eq!(pixel_at(&out, 2, 2), [250, 250, 250]);
    assert_eq!(pixel_at(&out, 1, 1), [3, 3, 3]);
}

#[test]
fn from_raw_checks_length() {
    assert!(PixelBuffer::from_raw(2, 2, vec![0; 11]).is_none());
    assert!(PixelBuffer::from_raw(2, 2, vec![0; 12]).is_some());
    let img = PixelBuffer::from_raw(1, 1, vec![1, 2, 3]).unwrap();
    assert_eq!(img.into_raw(), vec![1, 2, 3]);
}

#[test]
fn remap_by_zero_keeps_values() {
    let mut img = build(3, 2, |x, y| [x as u8 * 40, y as u8 * 90, 7]);
    let before = img.data.clone();
    auto_brighten(&mut img, 0);
    assert_eq!(img.data, before);
}

#[test]
fn remap_by_full_offset_is_white() {
    let mut img = build(3, 2, |x, y| [x as u8 * 40, y as u8 * 90, 7]);
    auto_brighten(&mut img, 255);
    assert!(img.data.iter().all(|&c| c == 255));
    assert_eq!((img.width, img.height), (3, 2));
}

#[test]
fn remap_exact_values() {
    // 255 - floor((255 - c) * (255 - offset) / 255)
    assert_eq!(remap_channel(0, 128), 128);
    assert_eq!(remap_channel(100, 50), 131);
    assert_eq!(remap_channel(255, 10), 255);
    assert_eq!(remap_channel(0, 1), 1);
    let mut img = build(1, 1, |_, _| [0, 100, 255]);
    auto_brighten(&mut img, 50);
    assert_eq!(img.data, vec![50, 131, 255]);
}

#[test]
fn remap_is_monotonic_in_offset() {
    for c in 0..255u8 {
        for offset in 0..255u8 {
            assert!(remap_channel(c, offset) <= remap_channel(c, offset + 1));
        }
    }
    assert!(remap_channel(10, 20) <= remap_channel(10, 200));
}

#[test]
fn contains_bytes_finds_marker() {
    assert!(contains_bytes(b"vlcsnap-0001-vlc-print-out", b"vlc-print-out"));
    assert!(contains_bytes(b"abc", b""));
    assert!(!contains_bytes(b"vlcsnap-0001", b"vlc-print-out"));
    assert!(!contains_bytes(b"vlc-print-ou", b"vlc-print-out"));
}

#[test]
fn latest_index_prefers_last_maximum() {
    assert_eq!(latest_index(&vec![]), None);
    assert_eq!(latest_index(&vec![3, 9, 2]), Some(1));
    assert_eq!(latest_index(&vec![9, 4, 9, 1]), Some(2));
}
