//! The colour mode of a sheet and the colour transform that goes with it.

use vstd::prelude::*;
use vstd::string::*;
use crate::pixel::Pixel;
use crate::raster::{lemma_grayed_idempotent, Bitmap, Raster};

verus! {

/// Opaque white.
pub open spec fn white() -> Pixel {
    Pixel { r: 255, g: 255, b: 255, a: 255 }
}

/// Opaque black.
pub open spec fn black() -> Pixel {
    Pixel { r: 0, g: 0, b: 0, a: 255 }
}

/// Whether a sheet is printed in colour or in neutral tones.
#[derive(Clone, Copy, Debug, PartialEq, Eq, Structural)]
pub enum ColorMode {
    Color,
    Monochrome,
}

impl ColorMode {
    /// The background of the canvas: white in colour, black in monochrome.
    pub open spec fn spec_background(self) -> Pixel {
        match self {
            ColorMode::Color => white(),
            ColorMode::Monochrome => black(),
        }
    }

    /// The background of the canvas: white in colour, black in monochrome.
    #[verifier::when_used_as_spec(spec_background)]
    pub fn background(self) -> (out: Pixel)
        ensures
            out == self.spec_background(),
    {
        match self {
            ColorMode::Color => Pixel { r: 255, g: 255, b: 255, a: 255 },
            ColorMode::Monochrome => Pixel { r: 0, g: 0, b: 0, a: 255 },
        }
    }

    /// The colour of the branding text, chosen to stand out from the
    /// background: black in colour, white in monochrome.
    pub open spec fn spec_text_color(self) -> Pixel {
        match self {
            ColorMode::Color => black(),
            ColorMode::Monochrome => white(),
        }
    }

    /// The colour of the branding text, chosen to stand out from the
    /// background: black in colour, white in monochrome.
    #[verifier::when_used_as_spec(spec_text_color)]
    pub fn text_color(self) -> (out: Pixel)
        ensures
            out == self.spec_text_color(),
    {
        match self {
            ColorMode::Color => Pixel { r: 0, g: 0, b: 0, a: 255 },
            ColorMode::Monochrome => Pixel { r: 255, g: 255, b: 255, a: 255 },
        }
    }

    /// The name of the logo asset that goes with the mode.
    pub open spec fn logo_name(self) -> Seq<char> {
        match self {
            ColorMode::Color => "assets/br_color.png"@,
            ColorMode::Monochrome => "assets/br_bw.png"@,
        }
    }

    /// The name of the logo asset that goes with the mode: the dark logo on
    /// the white background, the light logo on the black one.
    pub fn logo_asset(self) -> (out: &'static str)
        ensures
            out@ == self.logo_name(),
    {
        match self {
            ColorMode::Color => "assets/br_color.png",
            ColorMode::Monochrome => "assets/br_bw.png",
        }
    }

    /// The mode that a label selects: `B&W` selects monochrome, any other
    /// label colour.
    pub fn from_label(label: &str) -> (out: ColorMode)
        ensures
            out == if label@ == "B&W"@ {
                ColorMode::Monochrome
            } else {
                ColorMode::Color
            },
    {
        proof {
            reveal_strlit("B&W");
        }
        if label.unicode_len() == 3 && label.get_char(0) == 'B' && label.get_char(1) == '&'
            && label.get_char(2) == 'W' {
            assert(label@ =~= "B&W"@);
            ColorMode::Monochrome
        } else {
            ColorMode::Color
        }
    }
}

/// What the colour transform makes of a bitmap: its neutral tones in
/// monochrome, the bitmap itself in colour.
pub open spec fn toned(b: Bitmap, mode: ColorMode) -> Bitmap {
    match mode {
        ColorMode::Color => b,
        ColorMode::Monochrome => b.grayed(),
    }
}

/// Applying a colour mode twice gives what applying it once gives, and it
/// changes neither the size of the canvas nor any alpha value.
pub proof fn lemma_toned_idempotent(b: Bitmap, mode: ColorMode)
    requires
        b.wf(),
    ensures
        toned(toned(b, mode), mode) == toned(b, mode),
        toned(b, mode).wf(),
        toned(b, mode).width == b.width,
        toned(b, mode).height == b.height,
        forall|x: int, y: int|
            b.contains(x, y) ==> #[trigger] toned(b, mode).at(x, y).a == b.at(x, y).a,
{
    lemma_grayed_idempotent(b);
}

/// Applies the colour mode to the whole canvas: in monochrome every pixel
/// becomes its neutral tone with its alpha kept, in colour nothing changes.
pub fn apply_color_mode(canvas: &mut Raster, mode: ColorMode)
    ensures
        final(canvas)@ == toned(old(canvas)@, mode),
{
    match mode {
        ColorMode::Color => {},
        ColorMode::Monochrome => {
            canvas.to_gray();
        },
    }
}

} // verus!
