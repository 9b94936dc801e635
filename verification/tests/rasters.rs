use memorabooth::error::PlacementFault;
use memorabooth::pixel::Pixel;
use memorabooth::raster::{Raster, Stamp};

const WHITE: Pixel = Pixel { r: 255, g: 255, b: 255, a: 255 };
const RED: Pixel = Pixel { r: 200, g: 10, b: 30, a: 255 };

/// A raster whose pixel at (x, y) is (x, y, x + y, 255 - x).
fn pattern(width: u32, height: u32) -> Raster {
    let mut bytes = Vec::new();
    for y in 0..height {
        for x in 0..width {
            bytes.push(x as u8);
            bytes.push(y as u8);
            bytes.push((x + y) as u8);
            bytes.push(255 - x as u8);
        }
    }
    Raster::from_rgba_bytes(width, height, &bytes).unwrap()
}

fn pattern_at(x: u32, y: u32) -> Pixel {
    Pixel { r: x as u8, g: y as u8, b: (x + y) as u8, a: 255 - x as u8 }
}

fn same(a: &Raster, b: &Raster) -> bool {
    a.width() == b.width() && a.height() == b.height() && a.to_rgba_bytes() == b.to_rgba_bytes()
}

#[test]
fn filled_raster_has_its_size_and_colour() {
    let r = Raster::filled(4, 3, RED);
    assert_eq!(r.width(), 4);
    assert_eq!(r.height(), 3);
    for y in 0..3 {
        for x in 0..4 {
            assert_eq!(r.get(x, y), Some(RED));
        }
    }
    assert_eq!(r.get(4, 0), None);
    assert_eq!(r.get(0, 3), None);
}

#[test]
fn empty_raster_has_no_pixels() {
    let r = Raster::empty();
    assert_eq!(r.width(), 0);
    assert_eq!(r.height(), 0);
    assert_eq!(r.get(0, 0), None);
    assert_eq!(r.to_rgba_bytes(), Some(vec![]));
}

#[test]
fn bytes_are_row_major_rgba() {
    let r = pattern(3, 2);
    let bytes = r.to_rgba_bytes().unwrap();
    assert_eq!(
        bytes,
        vec![0, 0, 0, 255, 1, 0, 1, 254, 2, 0, 2, 253, 0, 1, 1, 255, 1, 1, 2, 254, 2, 1, 3, 253]
    );
    assert_eq!(r.get(2, 1), Some(Pixel { r: 2, g: 1, b: 3, a: 253 }));
}

#[test]
fn bytes_round_trip() {
    let r = pattern(7, 5);
    let bytes = r.to_rgba_bytes().unwrap();
    let back = Raster::from_rgba_bytes(7, 5, &bytes).unwrap();
    assert!(same(&r, &back));
    assert_eq!(back.to_rgba_bytes().unwrap(), bytes);
}

#[test]
fn bytes_of_another_length_are_refused() {
    assert!(Raster::from_rgba_bytes(2, 2, &vec![0; 15]).is_none());
    assert!(Raster::from_rgba_bytes(2, 2, &vec![0; 17]).is_none());
    assert!(Raster::from_rgba_bytes(2, 2, &vec![0; 16]).is_some());
    assert!(Raster::from_rgba_bytes(0, 9, &vec![]).is_some());
}

#[test]
fn paste_copies_inside_and_leaves_the_rest() {
    let mut canvas = Raster::filled(6, 5, WHITE);
    let top = pattern(3, 2);
    assert_eq!(canvas.paste(&top, 2, 1), Ok(()));
    for y in 0..5 {
        for x in 0..6 {
            let expected = if (2..5).contains(&x) && (1..3).contains(&y) {
                pattern_at(x - 2, y - 1)
            } else {
                WHITE
            };
            assert_eq!(canvas.get(x, y), Some(expected));
        }
    }
}

#[test]
fn paste_past_an_edge_is_refused_and_changes_nothing() {
    let mut canvas = Raster::filled(6, 5, WHITE);
    let top = pattern(3, 2);
    assert_eq!(canvas.paste(&top, 4, 1), Err(PlacementFault::OutsideCanvas));
    assert_eq!(canvas.paste(&top, 0, 4), Err(PlacementFault::OutsideCanvas));
    assert_eq!(canvas.paste(&top, u32::MAX, 0), Err(PlacementFault::OutsideCanvas));
    assert!(same(&canvas, &Raster::filled(6, 5, WHITE)));
    assert_eq!(canvas.paste(&top, 3, 3), Ok(()));
}

#[test]
fn paste_agrees_with_the_image_crate() {
    let mut canvas = pattern(9, 8);
    let top = Raster::filled(4, 3, RED);
    canvas.paste(&top, 5, 2).unwrap();

    let mut theirs = image::RgbaImage::from_raw(9, 8, pattern(9, 8).to_rgba_bytes().unwrap()).unwrap();
    let their_top = image::RgbaImage::from_raw(4, 3, top.to_rgba_bytes().unwrap()).unwrap();
    image::GenericImage::copy_from(&mut theirs, &their_top, 5, 2).unwrap();
    assert_eq!(canvas.to_rgba_bytes().unwrap(), theirs.into_raw());

    let mut theirs = image::RgbaImage::from_raw(9, 8, pattern(9, 8).to_rgba_bytes().unwrap()).unwrap();
    assert!(image::GenericImage::copy_from(&mut theirs, &their_top, 6, 2).is_err());
    assert!(pattern(9, 8).paste(&top, 6, 2).is_err());
}

#[test]
fn crop_takes_the_window() {
    let r = pattern(8, 6);
    let c = r.crop(2, 1, 4, 3).unwrap();
    assert_eq!(c.width(), 4);
    assert_eq!(c.height(), 3);
    for y in 0..3 {
        for x in 0..4 {
            assert_eq!(c.get(x, y), Some(pattern_at(x + 2, y + 1)));
        }
    }
    assert!(same(&r.crop(0, 0, 8, 6).unwrap(), &r));
}

#[test]
fn crop_outside_is_refused() {
    let r = pattern(8, 6);
    assert!(r.crop(5, 0, 4, 1).is_none());
    assert!(r.crop(0, 4, 1, 3).is_none());
    assert!(r.crop(u32::MAX, 0, 2, 1).is_none());
    let edge = r.crop(8, 6, 0, 0).unwrap();
    assert_eq!((edge.width(), edge.height()), (0, 0));
}

#[test]
fn crop_agrees_with_the_image_crate() {
    let r = pattern(11, 7);
    let ours = r.crop(3, 2, 5, 4).unwrap();
    let theirs = image::RgbaImage::from_raw(11, 7, r.to_rgba_bytes().unwrap()).unwrap();
    let window = image::imageops::crop_imm(&theirs, 3, 2, 5, 4).to_image();
    assert_eq!(ours.to_rgba_bytes().unwrap(), window.into_raw());
}

#[test]
fn to_gray_turns_every_pixel_and_keeps_alpha() {
    let mut r = pattern(5, 4);
    r.to_gray();
    for y in 0..4u32 {
        for x in 0..5u32 {
            let level = ((x + y + x + y) / 3) as u8;
            assert_eq!(r.get(x, y), Some(Pixel { r: level, g: level, b: level, a: 255 - x as u8 }));
        }
    }
    let once = r.to_rgba_bytes().unwrap();
    r.to_gray();
    assert_eq!(r.to_rgba_bytes().unwrap(), once);
}

#[test]
fn overlay_blends_by_the_alpha_of_the_top() {
    let mut canvas = Raster::filled(3, 1, Pixel { r: 100, g: 255, b: 50, a: 9 });
    let top = Raster::from_rgba_bytes(3, 1, &vec![200, 0, 50, 128, 1, 2, 3, 255, 1, 2, 3, 0]).unwrap();
    canvas.overlay(&top, 0, 0);
    assert_eq!(canvas.get(0, 0), Some(Pixel { r: 150, g: 127, b: 50, a: 255 }));
    assert_eq!(canvas.get(1, 0), Some(Pixel { r: 1, g: 2, b: 3, a: 255 }));
    assert_eq!(canvas.get(2, 0), Some(Pixel { r: 100, g: 255, b: 50, a: 255 }));
}

#[test]
fn overlay_skips_what_falls_outside() {
    let under = Pixel { r: 10, g: 20, b: 30, a: 255 };
    let top = Raster::filled(3, 3, RED);
    for (x0, y0) in [(-1i64, -1i64), (3, 2), (-2, 3), (4, -2), (2, 1)] {
        let mut canvas = Raster::filled(5, 4, under);
        canvas.overlay(&top, x0, y0);
        assert_eq!((canvas.width(), canvas.height()), (5, 4));
        for y in 0..4i64 {
            for x in 0..5i64 {
                let covered = x >= x0 && x < x0 + 3 && y >= y0 && y < y0 + 3;
                let expected = if covered { RED } else { under };
                assert_eq!(canvas.get(x as u32, y as u32), Some(expected));
            }
        }
    }
}

#[test]
fn overlay_far_outside_changes_nothing() {
    let under = Pixel { r: 10, g: 20, b: 30, a: 255 };
    let top = Raster::filled(3, 3, RED);
    for (x0, y0) in [(5i64, 0i64), (0, 4), (-3, 0), (0, -3), (i64::MAX, 0), (i64::MIN, i64::MIN), (0, i64::MAX)] {
        let mut canvas = Raster::filled(5, 4, under);
        canvas.overlay(&top, x0, y0);
        assert!(same(&canvas, &Raster::filled(5, 4, under)));
    }
}

#[test]
fn ink_blends_the_colour_through_the_mask() {
    let mut canvas = Raster::filled(3, 1, Pixel { r: 100, g: 255, b: 50, a: 255 });
    let mask = Raster::from_rgba_bytes(3, 1, &vec![9, 9, 9, 128, 9, 9, 9, 255, 9, 9, 9, 0]).unwrap();
    canvas.ink(&mask, 0, 0, Pixel { r: 200, g: 0, b: 50, a: 77 });
    assert_eq!(canvas.get(0, 0), Some(Pixel { r: 150, g: 127, b: 50, a: 255 }));
    assert_eq!(canvas.get(1, 0), Some(Pixel { r: 200, g: 0, b: 50, a: 255 }));
    assert_eq!(canvas.get(2, 0), Some(Pixel { r: 100, g: 255, b: 50, a: 255 }));
}

#[test]
fn stamp_replace_clips_at_the_edges() {
    let mut canvas = Raster::filled(4, 4, WHITE);
    canvas.stamp(&pattern(3, 3), -1, 2, Stamp::Replace);
    for y in 0..4u32 {
        for x in 0..4u32 {
            let expected = if x < 2 && y >= 2 { pattern_at(x + 1, y - 2) } else { WHITE };
            assert_eq!(canvas.get(x, y), Some(expected));
        }
    }
}
