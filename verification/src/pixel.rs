//! One RGBA sample and the per-pixel colour arithmetic.

use vstd::prelude::*;

verus! {

/// One 8-bit RGBA sample.
#[derive(Clone, Copy, Debug, PartialEq, Eq, Structural)]
pub struct Pixel {
    pub r: u8,
    pub g: u8,
    pub b: u8,
    pub a: u8,
}

/// Unweighted mean of the three colour channels, rounded down.
pub open spec fn gray_level(p: Pixel) -> int {
    (p.r + p.g + p.b) / 3
}

/// The neutral tone of a pixel: all three colour channels carry the mean,
/// alpha is kept.
pub open spec fn gray_of(p: Pixel) -> Pixel {
    Pixel { r: gray_level(p) as u8, g: gray_level(p) as u8, b: gray_level(p) as u8, a: p.a }
}

/// One colour channel of `top` laid over `under` with opacity `alpha / 255`,
/// rounded to the nearest level.
pub open spec fn mix(top: u8, under: u8, alpha: u8) -> int {
    (top * alpha + under * (255 - alpha) + 127) / 255
}

/// `top` laid over `under` by the alpha of `top`; the result is opaque.
pub open spec fn blend_of(top: Pixel, under: Pixel) -> Pixel {
    Pixel {
        r: mix(top.r, under.r, top.a) as u8,
        g: mix(top.g, under.g, top.a) as u8,
        b: mix(top.b, under.b, top.a) as u8,
        a: 255,
    }
}

/// A mixed channel lies between the two channels it mixes.
pub proof fn lemma_mix_between(top: u8, under: u8, alpha: u8)
    ensures
        top <= under ==> top <= mix(top, under, alpha) <= under,
        under <= top ==> under <= mix(top, under, alpha) <= top,
        alpha == 0 ==> mix(top, under, alpha) == under,
        alpha == 255 ==> mix(top, under, alpha) == top,
{
    let t = top as int;
    let u = under as int;
    let a = alpha as int;
    let s = t * a + u * (255 - a);
    assert(s == 255 * u + (t - u) * a) by (nonlinear_arith)
        requires
            s == t * a + u * (255 - a),
    ;
    if t <= u {
        assert((t - u) * a <= 0 && (t - u) * a >= (t - u) * 255) by (nonlinear_arith)
            requires
                t <= u,
                0 <= a <= 255,
        ;
    } else {
        assert((t - u) * a >= 0 && (t - u) * a <= (t - u) * 255) by (nonlinear_arith)
            requires
                u <= t,
                0 <= a <= 255,
        ;
    }
}

fn mix_channel(top: u8, under: u8, alpha: u8) -> (out: u8)
    ensures
        out == mix(top, under, alpha),
{
    proof {
        lemma_mix_between(top, under, alpha);
    }
    assert(top * alpha <= 255 * 255) by (nonlinear_arith)
        requires
            top <= 255,
            alpha <= 255,
    ;
    assert(under * (255 - alpha) <= 255 * 255) by (nonlinear_arith)
        requires
            under <= 255,
            0 <= 255 - alpha <= 255,
    ;
    let sum: u32 = top as u32 * alpha as u32 + under as u32 * (255 - alpha as u32) + 127;
    (sum / 255) as u8
}

impl Pixel {
    /// Converts the pixel to its neutral tone.
    pub fn to_gray(self) -> (out: Pixel)
        ensures
            out == gray_of(self),
    {
        let sum: u32 = self.r as u32 + self.g as u32 + self.b as u32;
        let level: u8 = (sum / 3) as u8;
        Pixel { r: level, g: level, b: level, a: self.a }
    }

    /// Lays this pixel over `under` by this pixel's alpha.
    pub fn over(self, under: Pixel) -> (out: Pixel)
        ensures
            out == blend_of(self, under),
    {
        Pixel {
            r: mix_channel(self.r, under.r, self.a),
            g: mix_channel(self.g, under.g, self.a),
            b: mix_channel(self.b, under.b, self.a),
            a: 255,
        }
    }
}

/// Taking the neutral tone twice is the same as taking it once, and the
/// neutral tone keeps alpha.
pub proof fn lemma_gray_idempotent(p: Pixel)
    ensures
        gray_of(gray_of(p)) == gray_of(p),
        gray_of(p).a == p.a,
        gray_of(p).r == gray_of(p).g && gray_of(p).g == gray_of(p).b,
{
}

} // verus!
