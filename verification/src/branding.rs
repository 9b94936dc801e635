//! The branding overlay: text lines measured by font metrics and centred in
//! the band, and a logo blended over the canvas.

use vstd::prelude::*;
use vstd::string::*;
use crate::compositor::{scale, scaled};
use crate::error::PlacementFault;
use crate::geometry::{lemma_cell_inside, LayoutVariant, Sheet, SheetSpec};
use crate::mode::ColorMode;
use crate::pixel::Pixel;
use crate::raster::{lemma_stamped_frame, lemma_stamped_outside, Bitmap, Raster, Stamp};
use crate::resample::{resample, resizable, resized};

verus! {

/// The mathematical model of a glyph.
pub struct Shape {
    /// The character that the glyph draws.
    pub ch: char,
    /// How far the pen moves to the right after the glyph, in font units.
    pub advance: int,
    /// Distance of the mask's left edge from the pen.
    pub left: int,
    /// Distance of the mask's upper edge from the top of the line.
    pub top: int,
    /// The glyph's coverage, held in the alpha channel.
    pub mask: Bitmap,
}

/// One glyph of a font at one point scale: its advance as the font's own
/// table gives it, and its coverage mask at that scale.
pub struct Glyph {
    /// The character that the glyph draws.
    pub ch: char,
    /// How far the pen moves to the right after the glyph, in font units.
    pub advance: u16,
    /// Distance of the mask's left edge from the pen, in pixels; negative
    /// where the glyph reaches back over the pen.
    pub left: i32,
    /// Distance of the mask's upper edge from the top of the line, in
    /// pixels.
    pub top: u32,
    /// The glyph's coverage, held in the alpha channel of each pixel; the
    /// colour channels are not read.
    pub mask: Raster,
}

impl View for Glyph {
    type V = Shape;

    open spec fn view(&self) -> Shape {
        Shape {
            ch: self.ch,
            advance: self.advance as int,
            left: self.left as int,
            top: self.top as int,
            mask: self.mask@,
        }
    }
}

/// A font at one point scale: the glyphs that it can draw, and the scale
/// itself, which sets `pixels` pixels for every `units` font units.
pub struct Typeface {
    pub pixels: u32,
    pub units: u32,
    pub glyphs: Vec<Glyph>,
}

/// The mathematical model of a typeface.
pub struct Face {
    pub pixels: int,
    pub units: int,
    pub shapes: Seq<Shape>,
}

impl View for Typeface {
    type V = Face;

    open spec fn view(&self) -> Face {
        Face {
            pixels: self.pixels as int,
            units: self.units as int,
            shapes: Seq::new(self.glyphs@.len(), |i: int| self.glyphs@[i]@),
        }
    }
}

/// The first of `shapes` that draws `c`.
pub open spec fn glyph_of(shapes: Seq<Shape>, c: char) -> Option<Shape>
    decreases shapes.len(),
{
    if shapes.len() == 0 {
        None
    } else if shapes[0].ch == c {
        Some(shapes[0])
    } else {
        glyph_of(shapes.drop_first(), c)
    }
}

/// The horizontal advance of `c` in font units; a character without a
/// glyph takes no room.
pub open spec fn advance_of(shapes: Seq<Shape>, c: char) -> int {
    match glyph_of(shapes, c) {
        Some(g) => g.advance,
        None => 0,
    }
}

/// The advances of the characters of `text`, summed in font units.
pub open spec fn run_units(shapes: Seq<Shape>, text: Seq<char>) -> int
    decreases text.len(),
{
    if text.len() == 0 {
        0
    } else {
        run_units(shapes, text.drop_last()) + advance_of(shapes, text.last())
    }
}

/// The width of `text` set in `face`, in pixels: the sum of the advances of
/// its characters as the font's table gives them, brought to the scale of
/// the face and only then rounded to the nearest pixel.
pub open spec fn text_width_of(face: Face, text: Seq<char>) -> int {
    scaled(run_units(face.shapes, text), face.pixels, face.units)
}

/// The left margin that centres a line of `width` in `available`: half of
/// what is left over, rounded down.
pub open spec fn centered_left(available: int, width: int) -> int {
    (available - width) / 2
}

/// `canvas` with `text` drawn on it in `color`: the pen starts at `x`, the
/// top of the line is at `y`, and each glyph is blended in at its offsets
/// from the pen, which stands as far from `x` as the text before the glyph
/// is wide.
pub open spec fn drawn(
    canvas: Bitmap,
    face: Face,
    text: Seq<char>,
    x: int,
    y: int,
    color: Pixel,
) -> Bitmap
    decreases text.len(),
{
    if text.len() == 0 {
        canvas
    } else {
        let before = drawn(canvas, face, text.drop_last(), x, y, color);
        let pen = x + text_width_of(face, text.drop_last());
        match glyph_of(face.shapes, text.last()) {
            Some(g) => before.inked(g.mask, pen + g.left, y + g.top, color),
            None => before,
        }
    }
}

/// A centred line has equal margins up to one pixel, and margins and line
/// together make up the available width.
pub proof fn lemma_centered(available: int, width: int)
    ensures
        ({
            let left = centered_left(available, width);
            let right = available - width - left;
            &&& left + width + right == available
            &&& left <= right <= left + 1
            &&& 2 * left <= available - width <= 2 * left + 1
        }),
{
}

fn scale_wide(a: u128, b: u32, c: u32) -> (out: u128)
    requires
        a <= 0x1_0000_0000_0000_0000_0000,
    ensures
        out == scaled(a as int, b as int, c as int),
        out <= 0x1_0000_0000_0000_0000_0000_0000_0000,
{
    if c == 0 {
        return 0;
    }
    assert(a * b <= 0x1_0000_0000_0000_0000_0000_0000_0000) by (nonlinear_arith)
        requires
            0 <= a <= 0x1_0000_0000_0000_0000_0000,
            0 <= b <= 0xffff_ffff,
    ;
    let product: u128 = a * b as u128;
    assert((2 * product + c) / (2 * c) <= product) by (nonlinear_arith)
        requires
            0 <= product,
            1 <= c,
    ;
    (2 * product + c as u128) / (2 * c as u128)
}

impl Typeface {
    /// The first glyph that draws `c`, if the face has one.
    pub fn glyph(&self, c: char) -> (out: Option<&Glyph>)
        ensures
            match out {
                Some(g) => glyph_of(self@.shapes, c) == Some(g@),
                None => glyph_of(self@.shapes, c) is None,
            },
    {
        let ghost shapes = self@.shapes;
        let mut i: usize = 0;
        assert(shapes.skip(0) =~= shapes);
        while i < self.glyphs.len()
            invariant
                i <= self.glyphs@.len(),
                shapes == self@.shapes,
                glyph_of(shapes, c) == glyph_of(shapes.skip(i as int), c),
            decreases self.glyphs@.len() - i,
        {
            assert(shapes.skip(i as int).drop_first() =~= shapes.skip(i + 1));
            if self.glyphs[i].ch == c {
                return Some(&self.glyphs[i]);
            }
            i = i + 1;
        }
        None
    }

    /// The horizontal advance of `c`, in font units.
    pub fn advance(&self, c: char) -> (out: u16)
        ensures
            out == advance_of(self@.shapes, c),
    {
        match self.glyph(c) {
            Some(g) => g.advance,
            None => 0,
        }
    }

    /// The advances of the characters of `text`, summed in font units.
    pub fn units_of(&self, text: &str) -> (out: u128)
        ensures
            out == run_units(self@.shapes, text@),
            out <= 0xffff * usize::MAX,
    {
        let n = text.unicode_len();
        let mut units: u128 = 0;
        let mut i: usize = 0;
        while i < n
            invariant
                i <= n,
                n == text@.len(),
                units == run_units(self@.shapes, text@.take(i as int)),
                units <= 0xffff * i,
            decreases n - i,
        {
            let c = text.get_char(i);
            assert(text@.take(i + 1).drop_last() =~= text@.take(i as int));
            units = units + self.advance(c) as u128;
            i = i + 1;
        }
        assert(text@.take(n as int) =~= text@);
        units
    }

    /// The width of `text` in pixels: the sum of the advances of its
    /// characters, as the font's table gives them, at the scale of the
    /// face.
    pub fn text_width(&self, text: &str) -> (out: u128)
        ensures
            out == text_width_of(self@, text@),
            out <= 0x1_0000_0000_0000_0000_0000_0000_0000,
    {
        scale_wide(self.units_of(text), self.pixels, self.units)
    }
}

/// The left margin, in pixels, that centres a line of `width` in
/// `available`.
pub fn center(available: u32, width: u128) -> (out: i128)
    ensures
        out == centered_left(available as int, width as int),
{
    if width <= available as u128 {
        ((available as u128 - width) / 2) as i128
    } else {
        let over: u128 = width - available as u128;
        let half: u128 = over / 2 + over % 2;
        if half <= i128::MAX as u128 {
            -(half as i128)
        } else {
            i128::MIN
        }
    }
}

/// How far from the corner of the canvas a run of text may start, either
/// way: 2^124 pixels.
const REACH: i128 = 0x1000_0000_0000_0000_0000_0000_0000_0000;

fn draw_run(canvas: &mut Raster, face: &Typeface, text: &str, x: i128, y: i128, color: Pixel)
    requires
        -REACH <= x <= REACH,
        -REACH <= y <= REACH,
    ensures
        final(canvas)@ == drawn(old(canvas)@, face@, text@, x as int, y as int, color),
{
    let ghost start = canvas@;
    let n = text.unicode_len();
    let mut units: u128 = 0;
    let mut i: usize = 0;
    while i < n
        invariant
            i <= n,
            n == text@.len(),
            -REACH <= x <= REACH,
            -REACH <= y <= REACH,
            units == run_units(face@.shapes, text@.take(i as int)),
            units <= 0xffff * i,
            canvas@ == drawn(start, face@, text@.take(i as int), x as int, y as int, color),
        decreases n - i,
    {
        let c = text.get_char(i);
        assert(text@.take(i + 1).drop_last() =~= text@.take(i as int));
        match face.glyph(c) {
            Some(g) => {
                let pen: i128 = x + scale_wide(units, face.pixels, face.units) as i128;
                let gx: i128 = pen + g.left as i128;
                let gy: i128 = y + g.top as i128;
                if gx < i64::MIN as i128 || gx > i64::MAX as i128 || gy < i64::MIN as i128 || gy
                    > i64::MAX as i128 {
                    proof {
                        use_type_invariant(&*canvas);
                        use_type_invariant(&g.mask);
                        lemma_stamped_outside(
                            canvas@,
                            g.mask@,
                            gx as int,
                            gy as int,
                            Stamp::Ink(color),
                        );
                    }
                } else {
                    canvas.ink(&g.mask, gx as i64, gy as i64, color);
                }
                units = units + g.advance as u128;
            },
            None => {},
        }
        i = i + 1;
    }
    assert(text@.take(n as int) =~= text@);
}

/// Draws `text` on `canvas` in `color`, with the pen starting at `x` and the
/// top of the line at `y`. Glyph pixels that fall outside the canvas are
/// skipped.
pub fn draw_text(canvas: &mut Raster, face: &Typeface, text: &str, x: i64, y: i64, color: Pixel)
    ensures
        final(canvas)@ == drawn(old(canvas)@, face@, text@, x as int, y as int, color),
{
    draw_run(canvas, face, text, x as i128, y as i128, color);
}

/// One line of branding text: what it says and the font, at its point
/// scale, that it is set in. The font is an asset with a name; its glyphs
/// are there where the asset could be resolved.
pub struct TextLine {
    pub text: String,
    pub font: String,
    pub face: Option<Typeface>,
}

/// The mathematical model of a line of text.
pub struct Caption {
    pub text: Seq<char>,
    pub font: Seq<char>,
    pub face: Option<Face>,
}

impl View for TextLine {
    type V = Caption;

    open spec fn view(&self) -> Caption {
        Caption {
            text: self.text@,
            font: self.font@,
            face: match self.face {
                Some(face) => Some(face@),
                None => None,
            },
        }
    }
}

/// `canvas` with `line` drawn on it, centred in the `available` pixels that
/// begin at column `origin`, with the top of the line at `y`. A line without
/// glyphs leaves the canvas as it is.
pub open spec fn line_drawn(
    canvas: Bitmap,
    line: Caption,
    origin: int,
    available: int,
    y: int,
    color: Pixel,
) -> Bitmap {
    match line.face {
        Some(face) => drawn(
            canvas,
            face,
            line.text,
            origin + centered_left(available, text_width_of(face, line.text)),
            y,
            color,
        ),
        None => canvas,
    }
}

/// Draws `line` on `canvas` in `color`, centred in the `available` pixels
/// that begin at column `origin`, with the top of the line at `y`. A line
/// wider than the room it has spills equally to both sides; a line whose
/// font has no glyphs draws nothing.
pub fn draw_line(
    canvas: &mut Raster,
    line: &TextLine,
    origin: u32,
    available: u32,
    y: i64,
    color: Pixel,
)
    ensures
        final(canvas)@ == line_drawn(
            old(canvas)@,
            line@,
            origin as int,
            available as int,
            y as int,
            color,
        ),
{
    match &line.face {
        Some(face) => {
            let width = face.text_width(line.text.as_str());
            let left = center(available, width);
            draw_run(canvas, face, line.text.as_str(), origin as i128 + left, y as i128, color);
        },
        None => {},
    }
}

/// Whether the metrics of every glyph fit their fields: an advance of 16
/// bits, offsets of 32 bits, and an offset from the top of the line that is
/// not negative.
pub open spec fn shapes_wf(shapes: Seq<Shape>) -> bool {
    forall|i: int|
        0 <= i < shapes.len() ==> {
            let g = #[trigger] shapes[i];
            &&& 0 <= g.advance <= u16::MAX
            &&& i32::MIN <= g.left <= i32::MAX
            &&& 0 <= g.top <= u32::MAX
        }
}

/// Whether the scale of a face and the metrics of its glyphs fit their
/// fields.
pub open spec fn face_wf(face: Face) -> bool {
    &&& 0 <= face.pixels <= u32::MAX
    &&& 0 <= face.units <= u32::MAX
    &&& shapes_wf(face.shapes)
}

/// The model of a typeface is well formed.
pub proof fn lemma_face_of(face: &Typeface)
    ensures
        face_wf(face@),
{
    assert forall|i: int| 0 <= i < face@.shapes.len() implies {
        let g = #[trigger] face@.shapes[i];
        &&& 0 <= g.advance <= u16::MAX
        &&& i32::MIN <= g.left <= i32::MAX
        &&& 0 <= g.top <= u32::MAX
    } by {
        assert(face@.shapes[i] == face.glyphs@[i]@);
    }
}

/// Whether the glyphs of a line, where it has any, are well formed.
pub open spec fn caption_wf(line: Caption) -> bool {
    line.face matches Some(face) ==> face_wf(face)
}

/// Whether the glyphs of all three lines are well formed.
pub open spec fn captions_wf(lines: Captions) -> bool {
    caption_wf(lines.name) && caption_wf(lines.label) && caption_wf(lines.date)
}

/// The model of a branding is well formed.
pub proof fn lemma_captions_of(branding: &BrandingSpec)
    ensures
        captions_wf(branding.captions()),
{
    match branding.name.face {
        Some(face) => {
            lemma_face_of(&face);
        },
        None => {},
    }
    match branding.label.face {
        Some(face) => {
            lemma_face_of(&face);
        },
        None => {},
    }
    match branding.date.face {
        Some(face) => {
            lemma_face_of(&face);
        },
        None => {},
    }
}

/// Drawing a line keeps the canvas well formed and of its size, and changes
/// no pixel above the top of the line.
pub proof fn lemma_line_frame(
    canvas: Bitmap,
    line: Caption,
    origin: int,
    available: int,
    y: int,
    color: Pixel,
)
    requires
        canvas.wf(),
        caption_wf(line),
    ensures
        line_drawn(canvas, line, origin, available, y, color).wf(),
        line_drawn(canvas, line, origin, available, y, color).width == canvas.width,
        line_drawn(canvas, line, origin, available, y, color).height == canvas.height,
        forall|px: int, py: int|
            canvas.contains(px, py) && py < y ==> #[trigger] line_drawn(
                canvas,
                line,
                origin,
                available,
                y,
                color,
            ).at(px, py) == canvas.at(px, py),
{
    match line.face {
        Some(face) => {
            lemma_drawn_frame(
                canvas,
                face,
                line.text,
                origin + centered_left(available, text_width_of(face, line.text)),
                y,
                color,
            );
        },
        None => {},
    }
}

/// A glyph found among well-formed shapes is well formed.
pub proof fn lemma_glyph_of(shapes: Seq<Shape>, c: char)
    requires
        shapes_wf(shapes),
    ensures
        glyph_of(shapes, c) matches Some(g) ==> 0 <= g.advance <= u16::MAX && i32::MIN <= g.left
            <= i32::MAX && 0 <= g.top <= u32::MAX && g.ch == c,
        0 <= advance_of(shapes, c) <= u16::MAX,
    decreases shapes.len(),
{
    if shapes.len() > 0 && shapes[0].ch != c {
        let rest = shapes.drop_first();
        assert forall|i: int| 0 <= i < rest.len() implies {
            let g = #[trigger] rest[i];
            &&& 0 <= g.advance <= u16::MAX
            &&& i32::MIN <= g.left <= i32::MAX
            &&& 0 <= g.top <= u32::MAX
        } by {
            assert(rest[i] == shapes[i + 1]);
        }
        lemma_glyph_of(rest, c);
    }
}

/// The width that keeps the shape of a `logo_width` by `logo_height` logo at
/// the given height, rounded to the nearest pixel.
pub open spec fn logo_width_of(logo_width: int, logo_height: int, height: int) -> int {
    scaled(height, logo_width, logo_height)
}

/// Whether a logo of `logo_width` by `logo_height` can be brought to the
/// given height: the width that goes with it must fit in 32 bits, and the
/// logo must be resizable to that size.
pub open spec fn logo_fittable(logo_width: int, logo_height: int, height: int) -> bool {
    let width = logo_width_of(logo_width, logo_height, height);
    width <= u32::MAX && resizable(logo_width, logo_height, width, height)
}

/// `logo` brought to the given height: resized to that height and to the
/// width that keeps its shape.
pub open spec fn mark_of(logo: Bitmap, height: int) -> Bitmap {
    resized(logo, logo_width_of(logo.width, logo.height, height), height)
}

/// Resizes `logo` to the given height and to the width that keeps its
/// shape.
///
/// Fails with `Oversized` exactly where the logo cannot be brought to that
/// height.
pub fn fit_logo(logo: &Raster, height: u32) -> (out: Result<Raster, PlacementFault>)
    ensures
        out is Ok <==> logo_fittable(logo@.width, logo@.height, height as int),
        out matches Ok(r) ==> r@ == mark_of(logo@, height as int),
        out matches Ok(r) ==> (logo@.height == height && logo_width_of(
            logo@.width,
            logo@.height,
            height as int,
        ) == logo@.width ==> r@ == logo@),
        out matches Err(e) ==> e == PlacementFault::Oversized,
{
    let width = scale(height, logo.width(), logo.height());
    if width > u32::MAX as u128 {
        return Err(PlacementFault::Oversized);
    }
    resample(logo, width as u32, height)
}

/// Where the parts of the branding stand in the band of a layout: pixel
/// offsets of their upper edges from the top of the band.
#[derive(Clone, Copy, Debug, PartialEq, Eq, Structural)]
pub struct BandPlan {
    pub logo_top: u32,
    pub name_top: u32,
    pub label_top: u32,
    pub date_top: u32,
}

impl LayoutVariant {
    /// Where the parts of the branding stand in the band of the layout.
    pub open spec fn spec_band_plan(self) -> BandPlan {
        match self {
            LayoutVariant::A => BandPlan {
                logo_top: 10,
                name_top: 170,
                label_top: 215,
                date_top: 255,
            },
            LayoutVariant::B => BandPlan {
                logo_top: 10,
                name_top: 134,
                label_top: 168,
                date_top: 202,
            },
            LayoutVariant::C => BandPlan {
                logo_top: 10,
                name_top: 72,
                label_top: 88,
                date_top: 103,
            },
        }
    }

    /// Where the parts of the branding stand in the band of the layout.
    #[verifier::when_used_as_spec(spec_band_plan)]
    pub fn band_plan(self) -> (out: BandPlan)
        ensures
            out == self.spec_band_plan(),
    {
        match self {
            LayoutVariant::A => BandPlan {
                logo_top: 10,
                name_top: 170,
                label_top: 215,
                date_top: 255,
            },
            LayoutVariant::B => BandPlan {
                logo_top: 10,
                name_top: 134,
                label_top: 168,
                date_top: 202,
            },
            LayoutVariant::C => BandPlan {
                logo_top: 10,
                name_top: 72,
                label_top: 88,
                date_top: 103,
            },
        }
    }

    /// How many blocks of branding the layout carries: one for each strip
    /// that the sheet is cut into.
    pub open spec fn spec_blocks(self) -> u32 {
        match self {
            LayoutVariant::C => 2,
            _ => 1,
        }
    }

    /// How many blocks of branding the layout carries: one for each strip
    /// that the sheet is cut into.
    #[verifier::when_used_as_spec(spec_blocks)]
    pub fn blocks(self) -> (out: u32)
        ensures
            out == self.spec_blocks(),
    {
        match self {
            LayoutVariant::C => 2,
            _ => 1,
        }
    }
}

impl Sheet {
    /// Height of the logo in the band of `layout`: half the band.
    pub open spec fn logo_height(self, layout: LayoutVariant) -> int {
        self.band_height(layout) / 2
    }

    /// Left edge of branding block `k`: the left border for the first
    /// block, the left edge of the second column for the twin.
    pub open spec fn block_origin(self, layout: LayoutVariant, k: int) -> int {
        if k == 0 {
            self.border()
        } else {
            self.border() + self.cell_width(layout) + self.gap(layout)
        }
    }

    /// Width that a branding block has for its text: one strip where the
    /// sheet is cut in two, else the sheet between its borders.
    pub open spec fn block_width(self, layout: LayoutVariant) -> int {
        if layout.spec_twin() {
            self.cell_width(layout)
        } else {
            self.width() - 2 * self.border()
        }
    }
}

impl SheetSpec {
    /// Height of the logo in the band of `layout`, in pixels.
    pub fn logo_height(&self, layout: LayoutVariant) -> (out: u32)
        ensures
            out == self@.logo_height(layout),
    {
        self.band_height(layout) / 2
    }

    /// Left edge of branding block `k` of `layout`, in pixels.
    pub fn block_origin(&self, layout: LayoutVariant, k: u32) -> (out: u32)
        ensures
            out == self@.block_origin(layout, k as int),
    {
        proof {
            use_type_invariant(self);
            lemma_cell_inside(self@, layout, 0, 0);
            assert(self@.fits(layout));
        }
        if k == 0 {
            self.border()
        } else {
            self.border() + self.cell_width(layout) + self.gap(layout)
        }
    }

    /// Width that a branding block of `layout` has for its text, in pixels.
    pub fn block_width(&self, layout: LayoutVariant) -> (out: u32)
        ensures
            out == self@.block_width(layout),
    {
        proof {
            use_type_invariant(self);
            lemma_cell_inside(self@, layout, 0, 0);
        }
        if layout.twin() {
            self.cell_width(layout)
        } else {
            self.width() - 2 * self.border()
        }
    }
}

/// What a sheet is branded with: three lines of text, each with its font,
/// and the logo that goes with the colour mode. A logo or a font that could
/// not be resolved is absent.
pub struct BrandingSpec {
    pub name: TextLine,
    pub label: TextLine,
    pub date: TextLine,
    pub logo: Option<Raster>,
}

/// The mathematical model of the three lines of branding text.
pub struct Captions {
    pub name: Caption,
    pub label: Caption,
    pub date: Caption,
}

impl BrandingSpec {
    /// The three lines of text.
    pub open spec fn captions(&self) -> Captions {
        Captions { name: self.name@, label: self.label@, date: self.date@ }
    }
}

/// `canvas` with branding block `k` drawn on it: the logo blended in at the
/// block's left edge, then the three lines, each centred in the block.
pub open spec fn block_drawn(
    canvas: Bitmap,
    sheet: Sheet,
    layout: LayoutVariant,
    mode: ColorMode,
    lines: Captions,
    mark: Bitmap,
    k: int,
) -> Bitmap {
    let top = sheet.height() - sheet.band_height(layout);
    let origin = sheet.block_origin(layout, k);
    let room = sheet.block_width(layout);
    let plan = layout.spec_band_plan();
    let color = mode.spec_text_color();
    let with_logo = canvas.overlaid(mark, origin, top + plan.logo_top);
    let with_name = line_drawn(with_logo, lines.name, origin, room, top + plan.name_top, color);
    let with_label = line_drawn(with_name, lines.label, origin, room, top + plan.label_top, color);
    line_drawn(with_label, lines.date, origin, room, top + plan.date_top, color)
}

/// `canvas` with the branding of `layout` drawn on it: one block, and for
/// the twin strips a second one that repeats the first on the other strip.
pub open spec fn branded(
    canvas: Bitmap,
    sheet: Sheet,
    layout: LayoutVariant,
    mode: ColorMode,
    lines: Captions,
    mark: Bitmap,
) -> Bitmap {
    let first = block_drawn(canvas, sheet, layout, mode, lines, mark, 0);
    if layout.spec_twin() {
        block_drawn(first, sheet, layout, mode, lines, mark, 1)
    } else {
        first
    }
}

/// Draws the branding of `layout` into the band of `canvas`: the logo
/// `mark`, already at its size, blended over the canvas, and the three
/// lines of `branding` in the text colour of `mode`. Whatever falls outside
/// the canvas is skipped.
pub fn draw_branding(
    canvas: &mut Raster,
    sheet: &SheetSpec,
    layout: LayoutVariant,
    mode: ColorMode,
    branding: &BrandingSpec,
    mark: &Raster,
)
    ensures
        final(canvas)@ == branded(old(canvas)@, sheet@, layout, mode, branding.captions(), mark@),
{
    let ghost start = canvas@;
    let band = sheet.band(layout);
    let plan = layout.band_plan();
    let color = mode.text_color();
    let room = sheet.block_width(layout);
    proof {
        use_type_invariant(sheet);
        lemma_cell_inside(sheet@, layout, 0, 0);
    }
    let blocks = layout.blocks();
    let mut k: u32 = 0;
    while k < blocks
        invariant
            k <= blocks,
            blocks == layout.spec_blocks(),
            band == sheet@.band(layout),
            band.y == sheet@.height() - sheet@.band_height(layout),
            plan == layout.spec_band_plan(),
            color == mode.spec_text_color(),
            room == sheet@.block_width(layout),
            canvas@ == if k == 0 {
                start
            } else if k == 1 {
                block_drawn(start, sheet@, layout, mode, branding.captions(), mark@, 0)
            } else {
                branded(start, sheet@, layout, mode, branding.captions(), mark@)
            },
        decreases blocks - k,
    {
        let origin = sheet.block_origin(layout, k);
        canvas.overlay(mark, origin as i64, band.y as i64 + plan.logo_top as i64);
        let top = band.y as i64;
        draw_line(canvas, &branding.name, origin, room, top + plan.name_top as i64, color);
        draw_line(canvas, &branding.label, origin, room, top + plan.label_top as i64, color);
        draw_line(canvas, &branding.date, origin, room, top + plan.date_top as i64, color);
        k = k + 1;
    }
}

/// Drawing a text keeps the canvas well formed and of its size, and changes
/// no pixel above the top of the line.
pub proof fn lemma_drawn_frame(
    canvas: Bitmap,
    face: Face,
    text: Seq<char>,
    x: int,
    y: int,
    color: Pixel,
)
    requires
        canvas.wf(),
        face_wf(face),
    ensures
        drawn(canvas, face, text, x, y, color).wf(),
        drawn(canvas, face, text, x, y, color).width == canvas.width,
        drawn(canvas, face, text, x, y, color).height == canvas.height,
        forall|px: int, py: int|
            canvas.contains(px, py) && py < y ==> #[trigger] drawn(
                canvas,
                face,
                text,
                x,
                y,
                color,
            ).at(px, py) == canvas.at(px, py),
    decreases text.len(),
{
    if text.len() > 0 {
        let before = drawn(canvas, face, text.drop_last(), x, y, color);
        lemma_drawn_frame(canvas, face, text.drop_last(), x, y, color);
        lemma_glyph_of(face.shapes, text.last());
        match glyph_of(face.shapes, text.last()) {
            Some(g) => {
                let pen = x + text_width_of(face, text.drop_last());
                lemma_stamped_frame(before, g.mask, pen + g.left, y + g.top, Stamp::Ink(color));
                assert forall|px: int, py: int| canvas.contains(px, py) && py < y implies drawn(
                    canvas,
                    face,
                    text,
                    x,
                    y,
                    color,
                ).at(px, py) == canvas.at(px, py) by {
                    assert(before.at(px, py) == canvas.at(px, py));
                    assert(!g.mask.contains(px - (pen + g.left), py - (y + g.top)));
                }
            },
            None => {},
        }
    }
}

/// The branding keeps the canvas well formed and of its size, and changes
/// no pixel above the band.
pub proof fn lemma_branded_frame(
    canvas: Bitmap,
    sheet: Sheet,
    layout: LayoutVariant,
    mode: ColorMode,
    lines: Captions,
    mark: Bitmap,
)
    requires
        canvas.wf(),
        captions_wf(lines),
    ensures
        branded(canvas, sheet, layout, mode, lines, mark).wf(),
        branded(canvas, sheet, layout, mode, lines, mark).width == canvas.width,
        branded(canvas, sheet, layout, mode, lines, mark).height == canvas.height,
        forall|px: int, py: int|
            canvas.contains(px, py) && py < sheet.height() - sheet.band_height(layout)
                ==> #[trigger] branded(canvas, sheet, layout, mode, lines, mark).at(px, py)
                == canvas.at(px, py),
{
    let first = block_drawn(canvas, sheet, layout, mode, lines, mark, 0);
    lemma_block_frame(canvas, sheet, layout, mode, lines, mark, 0);
    if layout.spec_twin() {
        lemma_block_frame(first, sheet, layout, mode, lines, mark, 1);
    }
}

/// One block of branding keeps the canvas well formed and of its size, and
/// changes no pixel above the band.
pub proof fn lemma_block_frame(
    canvas: Bitmap,
    sheet: Sheet,
    layout: LayoutVariant,
    mode: ColorMode,
    lines: Captions,
    mark: Bitmap,
    k: int,
)
    requires
        canvas.wf(),
        captions_wf(lines),
    ensures
        block_drawn(canvas, sheet, layout, mode, lines, mark, k).wf(),
        block_drawn(canvas, sheet, layout, mode, lines, mark, k).width == canvas.width,
        block_drawn(canvas, sheet, layout, mode, lines, mark, k).height == canvas.height,
        forall|px: int, py: int|
            canvas.contains(px, py) && py < sheet.height() - sheet.band_height(layout)
                ==> #[trigger] block_drawn(canvas, sheet, layout, mode, lines, mark, k).at(px, py)
                == canvas.at(px, py),
{
    let top = sheet.height() - sheet.band_height(layout);
    let origin = sheet.block_origin(layout, k);
    let room = sheet.block_width(layout);
    let plan = layout.spec_band_plan();
    let color = mode.spec_text_color();
    let with_logo = canvas.overlaid(mark, origin, top + plan.logo_top);
    lemma_stamped_frame(canvas, mark, origin, top + plan.logo_top, Stamp::Blend);
    let with_name = line_drawn(with_logo, lines.name, origin, room, top + plan.name_top, color);
    lemma_line_frame(with_logo, lines.name, origin, room, top + plan.name_top, color);
    let with_label = line_drawn(with_name, lines.label, origin, room, top + plan.label_top, color);
    lemma_line_frame(with_name, lines.label, origin, room, top + plan.label_top, color);
    let with_date = line_drawn(with_label, lines.date, origin, room, top + plan.date_top, color);
    lemma_line_frame(with_label, lines.date, origin, room, top + plan.date_top, color);
    assert forall|px: int, py: int| canvas.contains(px, py) && py < top implies with_date.at(
        px,
        py,
    ) == canvas.at(px, py) by {
        assert(with_logo.at(px, py) == canvas.at(px, py));
        assert(with_name.at(px, py) == with_logo.at(px, py));
        assert(with_label.at(px, py) == with_name.at(px, py));
    }
}

} // verus!
