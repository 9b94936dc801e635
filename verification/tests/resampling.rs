use memorabooth::error::PlacementFault;
use memorabooth::pixel::Pixel;
use memorabooth::raster::Raster;
use memorabooth::resample::resample;

fn pattern(width: u32, height: u32) -> Raster {
    let mut bytes = Vec::new();
    for y in 0..height {
        for x in 0..width {
            bytes.extend_from_slice(&[(x * 7) as u8, (y * 5) as u8, (x + y) as u8, 255]);
        }
    }
    Raster::from_rgba_bytes(width, height, &bytes).unwrap()
}

#[test]
fn resample_gives_the_requested_size() {
    let source = pattern(16, 12);
    for (w, h) in [(8u32, 6u32), (32, 24), (5, 11), (1, 1), (16, 3), (3, 12)] {
        let out = resample(&source, w, h).unwrap();
        assert_eq!((out.width(), out.height()), (w, h));
        assert_eq!(out.to_rgba_bytes().unwrap().len(), (4 * w * h) as usize);
    }
}

#[test]
fn resample_to_the_same_size_is_a_copy() {
    let source = pattern(16, 12);
    let out = resample(&source, 16, 12).unwrap();
    assert_eq!(out.to_rgba_bytes(), source.to_rgba_bytes());
}

#[test]
fn resample_to_no_area_is_empty() {
    let source = pattern(16, 12);
    let out = resample(&source, 0, 5).unwrap();
    assert_eq!((out.width(), out.height()), (0, 5));
    let out = resample(&source, 5, 0).unwrap();
    assert_eq!((out.width(), out.height()), (5, 0));
}

#[test]
fn resample_agrees_with_the_image_crate() {
    let source = pattern(16, 12);
    let ours = resample(&source, 7, 9).unwrap();
    let theirs = image::RgbaImage::from_raw(16, 12, source.to_rgba_bytes().unwrap()).unwrap();
    let resized = image::imageops::resize(&theirs, 7, 9, image::imageops::FilterType::Lanczos3);
    assert_eq!(ours.to_rgba_bytes().unwrap(), resized.into_raw());
}

#[test]
fn resample_of_one_colour_keeps_the_colour() {
    let colour = Pixel { r: 10, g: 200, b: 77, a: 255 };
    let out = resample(&Raster::filled(50, 40, colour), 13, 17).unwrap();
    for y in 0..17 {
        for x in 0..13 {
            assert_eq!(out.get(x, y), Some(colour));
        }
    }
}

#[test]
fn resample_beyond_addressable_memory_is_oversized() {
    assert_eq!(resample(&Raster::empty(), u32::MAX, u32::MAX).err(), Some(PlacementFault::Oversized));
}

/// Beyond 2^24 columns neighbouring columns share one single-precision
/// number.
const WIDE: u32 = 16_778_216;

#[test]
fn resample_shrinks_a_raster_wider_than_single_precision_counts() {
    let colour = Pixel { r: 10, g: 200, b: 77, a: 255 };
    let out = resample(&Raster::filled(WIDE, 1, colour), 3, 1).unwrap();
    assert_eq!((out.width(), out.height()), (3, 1));
}

#[test]
fn resample_between_rasters_wider_than_single_precision_counts() {
    let colour = Pixel { r: 10, g: 200, b: 77, a: 255 };
    let out = resample(&Raster::filled(WIDE, 1, colour), WIDE - 216, 1).unwrap();
    assert_eq!((out.width(), out.height()), (WIDE - 216, 1));
}

#[test]
fn resample_widens_a_raster_beyond_what_single_precision_counts() {
    let colour = Pixel { r: 10, g: 200, b: 77, a: 255 };
    let out = resample(&Raster::filled(3, 1, colour), WIDE, 1).unwrap();
    assert_eq!((out.width(), out.height()), (WIDE, 1));
}
