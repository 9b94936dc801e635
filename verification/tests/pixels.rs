use memorabooth::pixel::Pixel;

fn px(r: u8, g: u8, b: u8, a: u8) -> Pixel {
    Pixel { r, g, b, a }
}

#[test]
fn gray_is_unweighted_mean_rounded_down() {
    assert_eq!(px(200, 10, 30, 77).to_gray(), px(80, 80, 80, 77));
    assert_eq!(px(255, 255, 254, 255).to_gray(), px(254, 254, 254, 255));
    assert_eq!(px(1, 0, 0, 0).to_gray(), px(0, 0, 0, 0));
    assert_eq!(px(255, 255, 255, 9).to_gray(), px(255, 255, 255, 9));
}

#[test]
fn gray_twice_equals_gray_once() {
    let samples = [px(0, 0, 0, 0), px(255, 0, 0, 255), px(13, 200, 77, 128), px(1, 2, 3, 4), px(254, 255, 255, 1)];
    for p in samples {
        let once = p.to_gray();
        assert_eq!(once.to_gray(), once);
        assert_eq!(once.a, p.a);
        assert!(once.r == once.g && once.g == once.b);
    }
}

#[test]
fn gray_twice_equals_gray_once_on_every_level() {
    for r in (0..=255u16).step_by(5) {
        for g in (0..=255u16).step_by(15) {
            for b in (0..=255u16).step_by(17) {
                let p = px(r as u8, g as u8, b as u8, (r ^ g) as u8);
                let once = p.to_gray();
                assert_eq!(once.to_gray(), once);
                assert_eq!(once.a, p.a);
            }
        }
    }
}

#[test]
fn blend_mixes_by_alpha_and_is_opaque() {
    // (200 * 128 + 100 * 127 + 127) / 255 = 38427 / 255 = 150
    // (0 * 128 + 255 * 127 + 127) / 255 = 32512 / 255 = 127
    // (50 * 128 + 50 * 127 + 127) / 255 = 12877 / 255 = 50
    assert_eq!(px(200, 0, 50, 128).over(px(100, 255, 50, 3)), px(150, 127, 50, 255));
}

#[test]
fn blend_with_full_alpha_is_the_top_pixel() {
    assert_eq!(px(12, 34, 56, 255).over(px(200, 100, 0, 17)), px(12, 34, 56, 255));
}

#[test]
fn blend_with_zero_alpha_keeps_the_colour_beneath_and_makes_it_opaque() {
    assert_eq!(px(12, 34, 56, 0).over(px(200, 100, 0, 17)), px(200, 100, 0, 255));
}

#[test]
fn blend_stays_between_both_pixels() {
    for a in 0..=255u16 {
        let out = px(10, 240, 99, a as u8).over(px(250, 5, 99, 255));
        assert!(out.r >= 10 && out.r <= 250);
        assert!(out.g >= 5 && out.g <= 240);
        assert_eq!(out.b, 99);
        assert_eq!(out.a, 255);
    }
}
