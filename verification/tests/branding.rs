use memorabooth::branding::{
    center, draw_branding, draw_line, draw_text, fit_logo, BrandingSpec, Glyph, TextLine, Typeface,
};
use memorabooth::geometry::{LayoutVariant, SheetSpec};
use memorabooth::mode::ColorMode;
use memorabooth::pixel::Pixel;
use memorabooth::raster::Raster;

const WHITE: Pixel = Pixel { r: 255, g: 255, b: 255, a: 255 };
const BLACK: Pixel = Pixel { r: 0, g: 0, b: 0, a: 255 };
const GOLD: Pixel = Pixel { r: 220, g: 180, b: 20, a: 255 };

fn glyph(ch: char, advance: u16, left: i32, top: u32, width: u32, height: u32) -> Glyph {
    Glyph { ch, advance, left, top, mask: Raster::filled(width, height, Pixel { r: 0, g: 0, b: 0, a: 255 }) }
}

/// One pixel to the font unit. 'a' advances 10 and inks 4 x 5 at (1, 2); 'b'
/// advances 7 and inks 2 x 2 at (0, 0); ' ' advances 3 and inks nothing.
fn face() -> Typeface {
    Typeface {
        pixels: 1,
        units: 1,
        glyphs: vec![glyph('a', 10, 1, 2, 4, 5), glyph('b', 7, 0, 0, 2, 2), glyph(' ', 3, 0, 0, 0, 0)],
    }
}

fn line(text: &str) -> TextLine {
    TextLine { text: text.to_string(), font: "assets/brand.ttf".to_string(), face: Some(face()) }
}

fn inked(canvas: &Raster, under: Pixel) -> Vec<(u32, u32)> {
    let mut out = Vec::new();
    for y in 0..canvas.height() {
        for x in 0..canvas.width() {
            if canvas.get(x, y) != Some(under) {
                out.push((x, y));
            }
        }
    }
    out
}

fn block(x0: u32, y0: u32, width: u32, height: u32) -> Vec<(u32, u32)> {
    let mut out = Vec::new();
    for y in y0..y0 + height {
        for x in x0..x0 + width {
            out.push((x, y));
        }
    }
    out
}

fn sorted(mut v: Vec<(u32, u32)>) -> Vec<(u32, u32)> {
    v.sort_by_key(|&(x, y)| (y, x));
    v
}

#[test]
fn text_width_sums_the_advances() {
    let f = face();
    assert_eq!(f.text_width(""), 0);
    assert_eq!(f.text_width("a"), 10);
    assert_eq!(f.text_width("ab a"), 10 + 7 + 3 + 10);
    assert_eq!(f.advance('b'), 7);
}

#[test]
fn advances_are_summed_in_font_units_and_rounded_once() {
    // 40 pixels to 2048 units: 532 units are 10.39 pixels
    let f = Typeface { pixels: 40, units: 2048, glyphs: vec![glyph('a', 532, 0, 0, 1, 1)] };
    assert_eq!(f.advance('a'), 532);
    assert_eq!(f.units_of("aaa"), 1596);
    assert_eq!(f.text_width("a"), 10);
    assert_eq!(f.text_width("aa"), 21); // 20.78
    assert_eq!(f.text_width("aaa"), 31); // 31.17, not 3 * 10
    assert_eq!(f.text_width("aaaaa"), 52); // 51.95
    assert_eq!(f.text_width(""), 0);
}

#[test]
fn pen_stands_where_the_text_before_it_ends() {
    let f = Typeface { pixels: 40, units: 2048, glyphs: vec![glyph('a', 532, 0, 0, 1, 1)] };
    let mut canvas = Raster::filled(40, 1, WHITE);
    draw_text(&mut canvas, &f, "aaaa", 2, 0, BLACK);
    // pens at 2 + 0, 2 + 10, 2 + 21, 2 + 31
    assert_eq!(inked(&canvas, WHITE), vec![(2, 0), (12, 0), (23, 0), (33, 0)]);
}

#[test]
fn face_without_scale_gives_text_no_width() {
    let f = Typeface { pixels: 40, units: 0, glyphs: vec![glyph('a', 532, 0, 0, 1, 1)] };
    assert_eq!(f.text_width("aaa"), 0);
    let f = Typeface { pixels: 0, units: 2048, glyphs: vec![glyph('a', 532, 0, 0, 1, 1)] };
    assert_eq!(f.text_width("aaa"), 0);
}

#[test]
fn characters_without_a_glyph_take_no_room() {
    let f = face();
    assert_eq!(f.advance('z'), 0);
    assert_eq!(f.text_width("zaz"), 10);
    assert!(f.glyph('z').is_none());
    assert_eq!(f.glyph('a').unwrap().advance, 10);
}

#[test]
fn first_glyph_of_a_character_wins() {
    let f = Typeface { pixels: 1, units: 1, glyphs: vec![glyph('a', 10, 0, 0, 1, 1), glyph('a', 99, 0, 0, 1, 1)] };
    assert_eq!(f.advance('a'), 10);
    assert_eq!(f.text_width("aa"), 20);
}

#[test]
fn center_halves_what_is_left_over() {
    assert_eq!(center(100, 40), 30);
    assert_eq!(center(100, 41), 29); // 59 / 2 rounded down
    assert_eq!(center(100, 100), 0);
    assert_eq!(center(0, 0), 0);
    assert_eq!(center(1164, 40), 562);
}

#[test]
fn center_of_a_line_that_is_too_wide_is_negative() {
    assert_eq!(center(100, 101), -1); // -1 / 2 rounded down
    assert_eq!(center(100, 102), -1);
    assert_eq!(center(100, 103), -2);
    assert_eq!(center(0, u128::MAX), i128::MIN);
    assert_eq!(center(1, u128::MAX), -i128::MAX);
}

#[test]
fn centered_margins_differ_by_at_most_one_and_add_up() {
    for available in [0u32, 1, 2, 99, 100, 1164, u32::MAX] {
        for width in [0u128, 1, 2, 3, 99, 100, 101, 5000, 1 << 40] {
            let left = center(available, width);
            let right = available as i128 - width as i128 - left;
            assert_eq!(left + width as i128 + right, available as i128);
            assert!(right == left || right == left + 1);
        }
    }
}

#[test]
fn draw_text_puts_each_glyph_at_the_pen() {
    let mut canvas = Raster::filled(40, 12, WHITE);
    draw_text(&mut canvas, &face(), "ab a", 5, 3, BLACK);
    // 'a' at pen 5: mask at (6, 5), 4 x 5; 'b' at pen 15: mask at (15, 3), 2 x 2;
    // ' ' at pen 22; 'a' at pen 25: mask at (26, 5)
    let mut expected = block(6, 5, 4, 5);
    expected.extend(block(15, 3, 2, 2));
    expected.extend(block(26, 5, 4, 5));
    assert_eq!(inked(&canvas, WHITE), sorted(expected));
    assert_eq!(canvas.get(6, 5), Some(BLACK));
}

#[test]
fn draw_text_skips_what_falls_outside() {
    let mut canvas = Raster::filled(12, 6, WHITE);
    draw_text(&mut canvas, &face(), "aa", -3, 3, GOLD);
    // first mask at (-2, 5): columns 0..2 of row 5 remain; second at pen 7: mask at (8, 5)
    let mut expected = block(0, 5, 2, 1);
    expected.extend(block(8, 5, 4, 1));
    assert_eq!(inked(&canvas, WHITE), sorted(expected));
    assert_eq!((canvas.width(), canvas.height()), (12, 6));
}

#[test]
fn glyph_may_reach_back_over_the_pen() {
    let f = Typeface { pixels: 1, units: 1, glyphs: vec![glyph('j', 5, -2, 1, 3, 2)] };
    let mut canvas = Raster::filled(12, 4, WHITE);
    draw_text(&mut canvas, &f, "jj", 1, 0, BLACK);
    // masks at -1 and 4 in rows 1..3
    let mut expected = block(0, 1, 2, 2);
    expected.extend(block(4, 1, 3, 2));
    assert_eq!(inked(&canvas, WHITE), sorted(expected));
}

#[test]
fn draw_text_far_outside_changes_nothing() {
    for (x, y) in [(i64::MAX, 0i64), (i64::MIN, 0), (0, i64::MAX), (0, i64::MIN), (40, 0), (0, 12), (-100, 0)] {
        let mut canvas = Raster::filled(40, 12, WHITE);
        draw_text(&mut canvas, &face(), "abab", x, y, BLACK);
        assert!(inked(&canvas, WHITE).is_empty());
    }
}

#[test]
fn draw_text_blends_by_coverage() {
    let half = Glyph { ch: 'h', advance: 2, left: 0, top: 0, mask: Raster::filled(1, 1, Pixel { r: 9, g: 9, b: 9, a: 128 }) };
    let f = Typeface { pixels: 1, units: 1, glyphs: vec![half] };
    let mut canvas = Raster::filled(2, 1, Pixel { r: 100, g: 255, b: 50, a: 255 });
    draw_text(&mut canvas, &f, "h", 0, 0, Pixel { r: 200, g: 0, b: 50, a: 255 });
    assert_eq!(canvas.get(0, 0), Some(Pixel { r: 150, g: 127, b: 50, a: 255 }));
    assert_eq!(canvas.get(1, 0), Some(Pixel { r: 100, g: 255, b: 50, a: 255 }));
}

#[test]
fn draw_line_centres_the_line() {
    let mut canvas = Raster::filled(60, 10, WHITE);
    // width 17 in 40 from column 10: left margin 11, pen starts at 21
    draw_line(&mut canvas, &line("ab"), 10, 40, 1, BLACK);
    let mut expected = block(22, 3, 4, 5);
    expected.extend(block(31, 1, 2, 2));
    assert_eq!(inked(&canvas, WHITE), sorted(expected));
}

#[test]
fn draw_line_that_is_too_wide_spills_to_both_sides() {
    let mut canvas = Raster::filled(30, 8, WHITE);
    // width 40 in 20 from column 5: left margin -10, pen starts at -5
    draw_line(&mut canvas, &line("aaaa"), 5, 20, 0, BLACK);
    // masks at -4, 6, 16, 26 in rows 2..7
    let mut expected = Vec::new();
    expected.extend(block(6, 2, 4, 5));
    expected.extend(block(16, 2, 4, 5));
    expected.extend(block(26, 2, 4, 5));
    assert_eq!(inked(&canvas, WHITE), sorted(expected));
}

#[test]
fn line_without_glyphs_draws_nothing() {
    let mut canvas = Raster::filled(30, 8, WHITE);
    let line = TextLine { text: "aaaa".to_string(), font: "assets/brand.ttf".to_string(), face: None };
    draw_line(&mut canvas, &line, 5, 20, 0, BLACK);
    assert!(inked(&canvas, WHITE).is_empty());
}

#[test]
fn logo_keeps_its_shape_at_the_given_height() {
    let logo = Raster::filled(30, 10, GOLD);
    let mark = fit_logo(&logo, 59).unwrap();
    assert_eq!((mark.width(), mark.height()), (177, 59));
    assert_eq!(mark.get(100, 30), Some(GOLD));
    let mark = fit_logo(&Raster::filled(7, 3, GOLD), 10).unwrap();
    assert_eq!((mark.width(), mark.height()), (23, 10)); // 23.3
    let mark = fit_logo(&Raster::filled(3, 2, GOLD), 1).unwrap();
    assert_eq!((mark.width(), mark.height()), (2, 1)); // 1.5 rounds up
}

#[test]
fn logo_at_its_own_height_is_unchanged() {
    let mut bytes = Vec::new();
    for i in 0..(5 * 4 * 4) {
        bytes.push((i * 3) as u8);
    }
    let logo = Raster::from_rgba_bytes(5, 4, &bytes).unwrap();
    let mark = fit_logo(&logo, 4).unwrap();
    assert_eq!(mark.to_rgba_bytes().unwrap(), bytes);
}

#[test]
fn logo_that_cannot_be_sized_is_oversized() {
    assert!(fit_logo(&Raster::filled(3, 1, GOLD), u32::MAX).is_err());
    let none = fit_logo(&Raster::empty(), 0).unwrap();
    assert_eq!((none.width(), none.height()), (0, 0));
}

#[test]
fn band_plans_are_fixed_per_layout() {
    let a = LayoutVariant::A.band_plan();
    assert_eq!((a.logo_top, a.name_top, a.label_top, a.date_top), (10, 170, 215, 255));
    let b = LayoutVariant::B.band_plan();
    assert_eq!((b.logo_top, b.name_top, b.label_top, b.date_top), (10, 134, 168, 202));
    let c = LayoutVariant::C.band_plan();
    assert_eq!((c.logo_top, c.name_top, c.label_top, c.date_top), (10, 72, 88, 103));
    assert_eq!(LayoutVariant::A.blocks(), 1);
    assert_eq!(LayoutVariant::B.blocks(), 1);
    assert_eq!(LayoutVariant::C.blocks(), 2);
}

#[test]
fn branding_blocks_of_the_standard_sheet() {
    let sheet = SheetSpec::standard();
    assert_eq!(sheet.logo_height(LayoutVariant::A), 150);
    assert_eq!(sheet.logo_height(LayoutVariant::B), 118);
    assert_eq!(sheet.logo_height(LayoutVariant::C), 59);
    assert_eq!(sheet.block_origin(LayoutVariant::A, 0), 18);
    assert_eq!(sheet.block_origin(LayoutVariant::C, 0), 18);
    assert_eq!(sheet.block_origin(LayoutVariant::C, 1), 618);
    assert_eq!(sheet.block_width(LayoutVariant::A), 1164);
    assert_eq!(sheet.block_width(LayoutVariant::B), 1164);
    assert_eq!(sheet.block_width(LayoutVariant::C), 564);
}

#[test]
fn branding_of_the_twin_layout_is_drawn_on_both_strips() {
    let sheet = SheetSpec::standard();
    let mut canvas = Raster::filled(1200, 1800, BLACK);
    let branding = BrandingSpec { name: line("ab"), label: line("a"), date: line(""), logo: None };
    let mark = Raster::filled(20, 59, GOLD);
    draw_branding(&mut canvas, &sheet, LayoutVariant::C, ColorMode::Monochrome, &branding, &mark);
    let mut expected = Vec::new();
    for origin in [18u32, 618] {
        // logo at the left edge of the strip, 10 below the top of the band
        expected.extend(block(origin, 1692, 20, 59));
        // name: width 17 in 564: left margin 273; top 1682 + 72
        expected.extend(block(origin + 273 + 1, 1754 + 2, 4, 5));
        expected.extend(block(origin + 273 + 10, 1754, 2, 2));
        // label: width 10 in 564: left margin 277; top 1682 + 88
        expected.extend(block(origin + 277 + 1, 1770 + 2, 4, 5));
    }
    assert_eq!(inked(&canvas, BLACK), sorted(expected));
    assert_eq!(canvas.get(18, 1692), Some(GOLD));
    assert_eq!(canvas.get(18 + 274, 1756), Some(WHITE));
    assert_eq!(canvas.get(618 + 274, 1756), Some(WHITE));
}

#[test]
fn branding_changes_nothing_above_the_band() {
    let sheet = SheetSpec::standard();
    for (layout, top) in [(LayoutVariant::A, 1500u32), (LayoutVariant::B, 1564), (LayoutVariant::C, 1682)] {
        let mut canvas = Raster::filled(1200, 1800, WHITE);
        let branding = BrandingSpec { name: line("abab ab"), label: line("bbb"), date: line("a a a"), logo: None };
        let mark = Raster::filled(300, sheet.logo_height(layout), GOLD);
        draw_branding(&mut canvas, &sheet, layout, ColorMode::Color, &branding, &mark);
        let changed = inked(&canvas, WHITE);
        assert!(!changed.is_empty());
        assert!(changed.iter().all(|&(_, y)| y >= top));
        assert_eq!((canvas.width(), canvas.height()), (1200, 1800));
    }
}

#[test]
fn branding_blends_the_logo_by_its_alpha() {
    let sheet = SheetSpec::standard();
    let mut canvas = Raster::filled(1200, 1800, Pixel { r: 100, g: 255, b: 50, a: 255 });
    let branding = BrandingSpec { name: line(""), label: line(""), date: line(""), logo: None };
    let mark = Raster::filled(2, 2, Pixel { r: 200, g: 0, b: 50, a: 128 });
    draw_branding(&mut canvas, &sheet, LayoutVariant::A, ColorMode::Color, &branding, &mark);
    assert_eq!(canvas.get(18, 1510), Some(Pixel { r: 150, g: 127, b: 50, a: 255 }));
    assert_eq!(canvas.get(19, 1511), Some(Pixel { r: 150, g: 127, b: 50, a: 255 }));
    assert_eq!(canvas.get(20, 1510), Some(Pixel { r: 100, g: 255, b: 50, a: 255 }));
    assert_eq!(canvas.get(18, 1509), Some(Pixel { r: 100, g: 255, b: 50, a: 255 }));
}
