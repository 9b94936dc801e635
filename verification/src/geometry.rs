//! Sheet geometry: from the physical sheet to the pixel rectangles of the
//! photo cells and the branding band of each layout.

use vstd::prelude::*;
use crate::raster::lemma_cell_index;

verus! {

/// Micrometres in one inch.
pub const MICROMETRES_PER_INCH: u32 = 25_400;

/// The three sheet layouts.
#[derive(Clone, Copy, Debug, PartialEq, Eq, Structural)]
pub enum LayoutVariant {
    /// One photo across the sheet.
    A,
    /// Four photos in a grid of two by two.
    B,
    /// Four photos in four rows, each shown twice side by side, so that the
    /// sheet can be cut into two identical strips.
    C,
}

impl LayoutVariant {
    /// How many photos the layout takes.
    pub open spec fn spec_photo_count(self) -> usize {
        match self {
            LayoutVariant::A => 1,
            LayoutVariant::B => 4,
            LayoutVariant::C => 4,
        }
    }

    /// How many photos the layout takes.
    #[verifier::when_used_as_spec(spec_photo_count)]
    pub fn photo_count(self) -> (out: usize)
        ensures
            out == self.spec_photo_count(),
    {
        match self {
            LayoutVariant::A => 1,
            LayoutVariant::B => 4,
            LayoutVariant::C => 4,
        }
    }

    /// Rows of cells.
    pub open spec fn spec_rows(self) -> u32 {
        match self {
            LayoutVariant::A => 1,
            LayoutVariant::B => 2,
            LayoutVariant::C => 4,
        }
    }

    /// Rows of cells.
    #[verifier::when_used_as_spec(spec_rows)]
    pub fn rows(self) -> (out: u32)
        ensures
            out == self.spec_rows(),
    {
        match self {
            LayoutVariant::A => 1,
            LayoutVariant::B => 2,
            LayoutVariant::C => 4,
        }
    }

    /// Columns of cells.
    pub open spec fn spec_columns(self) -> u32 {
        match self {
            LayoutVariant::A => 1,
            LayoutVariant::B => 2,
            LayoutVariant::C => 2,
        }
    }

    /// Columns of cells.
    #[verifier::when_used_as_spec(spec_columns)]
    pub fn columns(self) -> (out: u32)
        ensures
            out == self.spec_columns(),
    {
        match self {
            LayoutVariant::A => 1,
            LayoutVariant::B => 2,
            LayoutVariant::C => 2,
        }
    }

    /// Height of the branding band at the foot of the sheet, in micrometres.
    pub open spec fn spec_band_micrometres(self) -> u32 {
        match self {
            LayoutVariant::A => 25_400,
            LayoutVariant::B => 20_000,
            LayoutVariant::C => 10_000,
        }
    }

    /// Height of the branding band at the foot of the sheet, in micrometres.
    #[verifier::when_used_as_spec(spec_band_micrometres)]
    pub fn band_micrometres(self) -> (out: u32)
        ensures
            out == self.spec_band_micrometres(),
    {
        match self {
            LayoutVariant::A => 25_400,
            LayoutVariant::B => 20_000,
            LayoutVariant::C => 10_000,
        }
    }

    /// How many cells the layout has.
    pub open spec fn cell_count(self) -> nat {
        match self {
            LayoutVariant::A => 1,
            LayoutVariant::B => 4,
            LayoutVariant::C => 8,
        }
    }

    /// Whether each photo is shown in every column of its row.
    pub open spec fn spec_twin(self) -> bool {
        self == LayoutVariant::C
    }

    /// Whether each photo is shown in every column of its row.
    #[verifier::when_used_as_spec(spec_twin)]
    pub fn twin(self) -> (out: bool)
        ensures
            out == self.spec_twin(),
    {
        match self {
            LayoutVariant::C => true,
            _ => false,
        }
    }
}

/// A rectangle of pixels: corner, width and height.
#[derive(Clone, Copy, Debug, PartialEq, Eq, Structural)]
pub struct Rect {
    pub x: u32,
    pub y: u32,
    pub width: u32,
    pub height: u32,
}

impl Rect {
    /// The column just past the right edge.
    pub open spec fn right(self) -> int {
        self.x + self.width
    }

    /// The row just past the lower edge.
    pub open spec fn bottom(self) -> int {
        self.y + self.height
    }

    /// Whether the pixel `(x, y)` lies in the rectangle.
    pub open spec fn covers(self, x: int, y: int) -> bool {
        self.x <= x < self.right() && self.y <= y < self.bottom()
    }

    /// Whether no pixel lies in both rectangles.
    pub open spec fn apart(self, other: Rect) -> bool {
        forall|x: int, y: int| !(self.covers(x, y) && other.covers(x, y))
    }
}

/// A length of `micrometres` at `dpi` dots per inch, in pixels, rounded to
/// the nearest pixel (halves upward).
pub open spec fn pixels_of(micrometres: int, dpi: int) -> int {
    (2 * (micrometres * dpi) + MICROMETRES_PER_INCH) / (2 * MICROMETRES_PER_INCH)
}

/// Whether a canvas of the given size has room for the cells of `layout`,
/// each at least one pixel wide and high, beside the borders, the gaps and
/// the band.
pub open spec fn has_room(
    width: int,
    height: int,
    border: int,
    band: int,
    layout: LayoutVariant,
) -> bool {
    match layout {
        LayoutVariant::A => width >= 2 * border + 1 && height >= band + border + 1,
        LayoutVariant::B => width >= 3 * border + 2 && height >= band + 2 * border + 2,
        LayoutVariant::C => width >= 4 * border + 2 && height >= band + 4 * border + 4,
    }
}

/// The mathematical model of a sheet: its physical size in inches, the
/// resolution in dots per inch and the border width in micrometres.
pub struct Sheet {
    pub width_inches: int,
    pub height_inches: int,
    pub dpi: int,
    pub border_micrometres: int,
}

impl Sheet {
    /// Canvas width in pixels.
    pub open spec fn width(self) -> int {
        self.width_inches * self.dpi
    }

    /// Canvas height in pixels.
    pub open spec fn height(self) -> int {
        self.height_inches * self.dpi
    }

    /// Border width in pixels.
    pub open spec fn border(self) -> int {
        pixels_of(self.border_micrometres, self.dpi)
    }

    /// Height of the branding band of `layout` in pixels.
    pub open spec fn band_height(self, layout: LayoutVariant) -> int {
        pixels_of(layout.spec_band_micrometres() as int, self.dpi)
    }

    /// Width of the gap between the columns of `layout` in pixels: one
    /// border in the grid of two by two, two borders between the twin
    /// strips.
    pub open spec fn gap(self, layout: LayoutVariant) -> int {
        match layout {
            LayoutVariant::A => 0,
            LayoutVariant::B => self.border(),
            LayoutVariant::C => 2 * self.border(),
        }
    }

    /// Width of every cell of `layout`: what the two borders and the gap
    /// leave of the canvas width, divided evenly among the columns and
    /// rounded down.
    pub open spec fn cell_width(self, layout: LayoutVariant) -> int {
        match layout {
            LayoutVariant::A => self.width() - 2 * self.border(),
            LayoutVariant::B => (self.width() - 3 * self.border()) / 2,
            LayoutVariant::C => (self.width() - 4 * self.border()) / 2,
        }
    }

    /// Height of every cell of `layout`: what the band and one border above
    /// each row leave of the canvas height, divided evenly among the rows
    /// and rounded down.
    pub open spec fn cell_height(self, layout: LayoutVariant) -> int {
        match layout {
            LayoutVariant::A => self.height() - self.band_height(layout) - self.border(),
            LayoutVariant::B => (self.height() - self.band_height(layout) - 2 * self.border()) / 2,
            LayoutVariant::C => (self.height() - self.band_height(layout) - 4 * self.border()) / 4,
        }
    }

    /// Left edge of column `col`.
    pub open spec fn cell_x(self, layout: LayoutVariant, col: int) -> int {
        self.border() + col * (self.cell_width(layout) + self.gap(layout))
    }

    /// Upper edge of row `row`.
    pub open spec fn cell_y(self, layout: LayoutVariant, row: int) -> int {
        self.border() + row * (self.cell_height(layout) + self.border())
    }

    /// The cell in row `row` and column `col`.
    pub open spec fn cell(self, layout: LayoutVariant, row: int, col: int) -> Rect {
        Rect {
            x: self.cell_x(layout, col) as u32,
            y: self.cell_y(layout, row) as u32,
            width: self.cell_width(layout) as u32,
            height: self.cell_height(layout) as u32,
        }
    }

    /// All cells of `layout`, row by row.
    pub open spec fn cells(self, layout: LayoutVariant) -> Seq<Rect> {
        Seq::new(
            layout.cell_count(),
            |i: int|
                self.cell(
                    layout,
                    i / (layout.spec_columns() as int),
                    i % (layout.spec_columns() as int),
                ),
        )
    }

    /// The branding band of `layout`: the full width at the foot of the
    /// sheet.
    pub open spec fn band(self, layout: LayoutVariant) -> Rect {
        Rect {
            x: 0,
            y: (self.height() - self.band_height(layout)) as u32,
            width: self.width() as u32,
            height: self.band_height(layout) as u32,
        }
    }

    /// Whether `layout` has room on the sheet for cells of at least one
    /// pixel each way.
    pub open spec fn fits(self, layout: LayoutVariant) -> bool {
        has_room(self.width(), self.height(), self.border(), self.band_height(layout), layout)
    }

    /// A sheet is well formed when its pixel measures fit in 32 bits and
    /// every layout has room on it.
    pub open spec fn wf(self) -> bool {
        &&& 0 <= self.width_inches <= u32::MAX
        &&& 0 <= self.height_inches <= u32::MAX
        &&& 0 <= self.dpi <= u32::MAX
        &&& 0 <= self.border_micrometres <= u32::MAX
        &&& self.width() <= u32::MAX
        &&& self.height() <= u32::MAX
        &&& self.border() <= u32::MAX
        &&& self.fits(LayoutVariant::A)
        &&& self.fits(LayoutVariant::B)
        &&& self.fits(LayoutVariant::C)
    }
}

/// The cells of a well-formed sheet lie between the borders and above the
/// band, and each is at least one pixel wide and high.
pub proof fn lemma_cell_inside(sheet: Sheet, layout: LayoutVariant, row: int, col: int)
    requires
        sheet.wf(),
        0 <= row < layout.spec_rows(),
        0 <= col < layout.spec_columns(),
    ensures
        0 <= sheet.border(),
        0 <= sheet.band_height(layout) <= sheet.height(),
        1 <= sheet.cell_width(layout),
        1 <= sheet.cell_height(layout),
        sheet.border() <= sheet.cell_x(layout, col),
        sheet.cell_x(layout, col) + sheet.cell_width(layout) <= sheet.width() - sheet.border(),
        sheet.border() <= sheet.cell_y(layout, row),
        sheet.cell_y(layout, row) + sheet.cell_height(layout) <= sheet.height()
            - sheet.band_height(layout),
        sheet.cell(layout, row, col).x == sheet.cell_x(layout, col),
        sheet.cell(layout, row, col).y == sheet.cell_y(layout, row),
        sheet.cell(layout, row, col).width == sheet.cell_width(layout),
        sheet.cell(layout, row, col).height == sheet.cell_height(layout),
{
    lemma_pixels_nonnegative(sheet.border_micrometres, sheet.dpi);
    lemma_pixels_nonnegative(layout.spec_band_micrometres() as int, sheet.dpi);
    assert(sheet.fits(layout));
    let b = sheet.border();
    let w = sheet.cell_width(layout);
    let h = sheet.cell_height(layout);
    let g = sheet.gap(layout);
    assert(col == 0 || col == 1);
    assert(col * (w + g) == if col == 0 {
        0
    } else {
        w + g
    }) by (nonlinear_arith)
        requires
            col == 0 || col == 1,
    ;
    assert(row * (h + b) == if row == 0 {
        0
    } else if row == 1 {
        h + b
    } else if row == 2 {
        2 * (h + b)
    } else {
        3 * (h + b)
    }) by (nonlinear_arith)
        requires
            0 <= row < 4,
    ;
}

/// A length in pixels is never negative.
pub proof fn lemma_pixels_nonnegative(micrometres: int, dpi: int)
    requires
        0 <= micrometres,
        0 <= dpi,
    ensures
        0 <= pixels_of(micrometres, dpi),
{
    assert(0 <= micrometres * dpi) by (nonlinear_arith)
        requires
            0 <= micrometres,
            0 <= dpi,
    ;
}

/// Two different cells of a layout share no pixel.
pub proof fn lemma_cells_apart(
    sheet: Sheet,
    layout: LayoutVariant,
    row: int,
    col: int,
    other_row: int,
    other_col: int,
)
    requires
        sheet.wf(),
        0 <= row < layout.spec_rows(),
        0 <= col < layout.spec_columns(),
        0 <= other_row < layout.spec_rows(),
        0 <= other_col < layout.spec_columns(),
        row != other_row || col != other_col,
    ensures
        sheet.cell(layout, row, col).apart(sheet.cell(layout, other_row, other_col)),
{
    lemma_cell_inside(sheet, layout, row, col);
    lemma_cell_inside(sheet, layout, other_row, other_col);
    let b = sheet.border();
    let w = sheet.cell_width(layout);
    let h = sheet.cell_height(layout);
    let g = sheet.gap(layout);
    if col < other_col {
        assert(other_col * (w + g) >= col * (w + g) + (w + g)) by (nonlinear_arith)
            requires
                col < other_col,
                0 <= w + g,
        ;
    } else if other_col < col {
        assert(col * (w + g) >= other_col * (w + g) + (w + g)) by (nonlinear_arith)
            requires
                other_col < col,
                0 <= w + g,
        ;
    } else if row < other_row {
        assert(other_row * (h + b) >= row * (h + b) + (h + b)) by (nonlinear_arith)
            requires
                row < other_row,
                0 <= h + b,
        ;
    } else {
        assert(row * (h + b) >= other_row * (h + b) + (h + b)) by (nonlinear_arith)
            requires
                other_row < row,
                0 <= h + b,
        ;
    }
}

/// Cells, borders, gaps and band tile the sheet up to rounding: across, the
/// columns with their gaps and the two borders leave fewer pixels over than
/// there are columns; down, the rows with the border above each and the band
/// leave fewer pixels over than there are rows.
pub proof fn lemma_tiling(sheet: Sheet, layout: LayoutVariant)
    requires
        sheet.wf(),
    ensures
        ({
            let across = 2 * sheet.border() + sheet.cell_width(layout) + (layout.spec_columns()
                - 1) * (sheet.gap(layout) + sheet.cell_width(layout));
            across <= sheet.width() < across + layout.spec_columns()
        }),
        ({
            let down = layout.spec_rows() * (sheet.border() + sheet.cell_height(layout))
                + sheet.band_height(layout);
            down <= sheet.height() < down + layout.spec_rows()
        }),
{
    assert(sheet.fits(layout));
    let b = sheet.border();
    let h = sheet.cell_height(layout);
    let w = sheet.cell_width(layout);
    let g = sheet.gap(layout);
    match layout {
        LayoutVariant::A => {
            assert(1 * (b + h) == b + h);
            assert(0 * (g + w) == 0);
        },
        LayoutVariant::B => {
            assert(2 * (b + h) == 2 * b + 2 * h);
            assert(1 * (g + w) == g + w);
        },
        LayoutVariant::C => {
            assert(4 * (b + h) == 4 * b + 4 * h);
            assert(1 * (g + w) == g + w);
        },
    }
}

/// The geometry of one layout on one sheet, in pixels.
#[derive(Debug)]
pub struct Geometry {
    /// The photo cells, row by row.
    pub cells: Vec<Rect>,
    /// The branding band at the foot of the sheet.
    pub band: Rect,
    /// Width of the border around the cells.
    pub border: u32,
    /// Width of the gap between two columns.
    pub gap: u32,
}

/// A print sheet: physical size, resolution and border width. Every pixel
/// measure of a composition is derived from these four numbers.
#[derive(Clone, Copy, Debug)]
pub struct SheetSpec {
    width_inches: u32,
    height_inches: u32,
    dpi: u32,
    border_micrometres: u32,
}

impl View for SheetSpec {
    type V = Sheet;

    closed spec fn view(&self) -> Sheet {
        Sheet {
            width_inches: self.width_inches as int,
            height_inches: self.height_inches as int,
            dpi: self.dpi as int,
            border_micrometres: self.border_micrometres as int,
        }
    }
}

fn to_pixels(micrometres: u32, dpi: u32) -> (out: u128)
    ensures
        out == pixels_of(micrometres as int, dpi as int),
        out <= 0xffff_ffff_ffff_ffff,
{
    assert(micrometres * dpi <= 0xffff_ffff * 0xffff_ffff) by (nonlinear_arith)
        requires
            0 <= micrometres <= 0xffff_ffff,
            0 <= dpi <= 0xffff_ffff,
    ;
    let area: u128 = micrometres as u128 * dpi as u128;
    let doubled: u128 = 2 * area + 25_400;
    doubled / 50_800
}

fn room_for(width: u128, height: u128, border: u128, band: u128, layout: LayoutVariant) -> (out:
    bool)
    requires
        width <= 0xffff_ffff_ffff_ffff,
        height <= 0xffff_ffff_ffff_ffff,
        border <= 0xffff_ffff_ffff_ffff,
        band <= 0xffff_ffff_ffff_ffff,
    ensures
        out == has_room(width as int, height as int, border as int, band as int, layout),
{
    match layout {
        LayoutVariant::A => width >= 2 * border + 1 && height >= band + border + 1,
        LayoutVariant::B => width >= 3 * border + 2 && height >= band + 2 * border + 2,
        LayoutVariant::C => width >= 4 * border + 2 && height >= band + 4 * border + 4,
    }
}

impl SheetSpec {
    /// Every sheet is well formed.
    #[verifier::type_invariant]
    pub open spec fn inv(self) -> bool {
        self@.wf()
    }

    /// The sheet of the given physical size in inches, resolution in dots
    /// per inch and border width in micrometres, or `None` where its pixel
    /// measures do not fit in 32 bits or some layout has no room on it.
    pub fn new(width_inches: u32, height_inches: u32, dpi: u32, border_micrometres: u32) -> (out:
        Option<SheetSpec>)
        ensures
            out is Some <==> (Sheet {
                width_inches: width_inches as int,
                height_inches: height_inches as int,
                dpi: dpi as int,
                border_micrometres: border_micrometres as int,
            }).wf(),
            out matches Some(s) ==> s@ == (Sheet {
                width_inches: width_inches as int,
                height_inches: height_inches as int,
                dpi: dpi as int,
                border_micrometres: border_micrometres as int,
            }),
    {
        assert(width_inches * dpi <= 0xffff_ffff * 0xffff_ffff) by (nonlinear_arith)
            requires
                0 <= width_inches <= 0xffff_ffff,
                0 <= dpi <= 0xffff_ffff,
        ;
        assert(height_inches * dpi <= 0xffff_ffff * 0xffff_ffff) by (nonlinear_arith)
            requires
                0 <= height_inches <= 0xffff_ffff,
                0 <= dpi <= 0xffff_ffff,
        ;
        let width: u128 = width_inches as u128 * dpi as u128;
        let height: u128 = height_inches as u128 * dpi as u128;
        let border = to_pixels(border_micrometres, dpi);
        let limit: u128 = 0xffff_ffff;
        if width > limit || height > limit || border > limit {
            return None;
        }
        let band_a = to_pixels(LayoutVariant::A.band_micrometres(), dpi);
        let band_b = to_pixels(LayoutVariant::B.band_micrometres(), dpi);
        let band_c = to_pixels(LayoutVariant::C.band_micrometres(), dpi);
        if room_for(width, height, border, band_a, LayoutVariant::A) && room_for(
            width,
            height,
            border,
            band_b,
            LayoutVariant::B,
        ) && room_for(width, height, border, band_c, LayoutVariant::C) {
            Some(SheetSpec { width_inches, height_inches, dpi, border_micrometres })
        } else {
            None
        }
    }

    /// The standard sheet: 4 by 6 inches at 300 dots per inch, with a border
    /// of 0.15 cm.
    pub fn standard() -> (out: SheetSpec)
        ensures
            out@ == (Sheet {
                width_inches: 4,
                height_inches: 6,
                dpi: 300,
                border_micrometres: 1500,
            }),
            out@.width() == 1200,
            out@.height() == 1800,
            out@.border() == 18,
    {
        proof {
            let sheet = Sheet {
                width_inches: 4,
                height_inches: 6,
                dpi: 300,
                border_micrometres: 1500,
            };
            assert(sheet.width() == 1200);
            assert(sheet.height() == 1800);
            assert(sheet.border() == 18);
            assert(sheet.band_height(LayoutVariant::A) == 300);
            assert(sheet.band_height(LayoutVariant::B) == 236);
            assert(sheet.band_height(LayoutVariant::C) == 118);
        }
        SheetSpec { width_inches: 4, height_inches: 6, dpi: 300, border_micrometres: 1500 }
    }

    /// Canvas width in pixels.
    pub fn width(&self) -> (out: u32)
        ensures
            out == self@.width(),
    {
        proof {
            use_type_invariant(self);
        }
        self.width_inches * self.dpi
    }

    /// Canvas height in pixels.
    pub fn height(&self) -> (out: u32)
        ensures
            out == self@.height(),
    {
        proof {
            use_type_invariant(self);
        }
        self.height_inches * self.dpi
    }

    /// Border width in pixels.
    pub fn border(&self) -> (out: u32)
        ensures
            out == self@.border(),
    {
        proof {
            use_type_invariant(self);
        }
        to_pixels(self.border_micrometres, self.dpi) as u32
    }

    /// Height of the branding band of `layout` in pixels.
    pub fn band_height(&self, layout: LayoutVariant) -> (out: u32)
        ensures
            out == self@.band_height(layout),
    {
        proof {
            use_type_invariant(self);
            lemma_cell_inside(self@, layout, 0, 0);
        }
        to_pixels(layout.band_micrometres(), self.dpi) as u32
    }

    /// Width of the gap between the columns of `layout` in pixels.
    pub fn gap(&self, layout: LayoutVariant) -> (out: u32)
        ensures
            out == self@.gap(layout),
    {
        proof {
            use_type_invariant(self);
            assert(self@.fits(layout));
        }
        let border = self.border();
        match layout {
            LayoutVariant::A => 0,
            LayoutVariant::B => border,
            LayoutVariant::C => 2 * border,
        }
    }

    /// Width of every cell of `layout` in pixels.
    pub fn cell_width(&self, layout: LayoutVariant) -> (out: u32)
        ensures
            out == self@.cell_width(layout),
            out >= 1,
    {
        proof {
            use_type_invariant(self);
            lemma_cell_inside(self@, layout, 0, 0);
            assert(self@.fits(layout));
        }
        let width = self.width();
        let border = self.border();
        match layout {
            LayoutVariant::A => width - 2 * border,
            LayoutVariant::B => (width - 3 * border) / 2,
            LayoutVariant::C => (width - 4 * border) / 2,
        }
    }

    /// Height of every cell of `layout` in pixels.
    pub fn cell_height(&self, layout: LayoutVariant) -> (out: u32)
        ensures
            out == self@.cell_height(layout),
            out >= 1,
    {
        proof {
            use_type_invariant(self);
            lemma_cell_inside(self@, layout, 0, 0);
            assert(self@.fits(layout));
        }
        let rest = self.height() - self.band_height(layout);
        let border = self.border();
        match layout {
            LayoutVariant::A => rest - border,
            LayoutVariant::B => (rest - 2 * border) / 2,
            LayoutVariant::C => (rest - 4 * border) / 4,
        }
    }

    /// The cell in row `row` and column `col` of `layout`, or `None` where
    /// the layout has no such cell.
    pub fn cell(&self, layout: LayoutVariant, row: u32, col: u32) -> (out: Option<Rect>)
        ensures
            out == if row < layout.spec_rows() && col < layout.spec_columns() {
                Some(self@.cell(layout, row as int, col as int))
            } else {
                None
            },
    {
        if row >= layout.rows() || col >= layout.columns() {
            return None;
        }
        proof {
            use_type_invariant(self);
            lemma_cell_inside(self@, layout, row as int, col as int);
        }
        let width = self.cell_width(layout);
        let height = self.cell_height(layout);
        let border = self.border();
        let gap = self.gap(layout);
        Some(
            Rect {
                x: border + col * (width + gap),
                y: border + row * (height + border),
                width,
                height,
            },
        )
    }

    /// The branding band of `layout`.
    pub fn band(&self, layout: LayoutVariant) -> (out: Rect)
        ensures
            out == self@.band(layout),
    {
        proof {
            use_type_invariant(self);
            lemma_cell_inside(self@, layout, 0, 0);
        }
        let band = self.band_height(layout);
        Rect { x: 0, y: self.height() - band, width: self.width(), height: band }
    }

    /// Resolves `layout` on this sheet: its cells row by row, its branding
    /// band, the border and the gap between columns.
    pub fn resolve(&self, layout: LayoutVariant) -> (out: Geometry)
        ensures
            out.cells@ == self@.cells(layout),
            out.band == self@.band(layout),
            out.border == self@.border(),
            out.gap == self@.gap(layout),
    {
        let rows = layout.rows();
        let columns = layout.columns();
        let mut cells: Vec<Rect> = Vec::new();
        let mut row: u32 = 0;
        while row < rows
            invariant
                row <= rows,
                rows == layout.spec_rows(),
                columns == layout.spec_columns(),
                cells@.len() == row * columns,
                forall|i: int| 0 <= i < cells@.len() ==> cells@[i] == self@.cells(layout)[i],
            decreases rows - row,
        {
            let mut col: u32 = 0;
            while col < columns
                invariant
                    col <= columns,
                    row < rows,
                    rows == layout.spec_rows(),
                    columns == layout.spec_columns(),
                    cells@.len() == row * columns + col,
                    forall|i: int| 0 <= i < cells@.len() ==> cells@[i] == self@.cells(layout)[i],
                decreases columns - col,
            {
                proof {
                    lemma_cell_index(columns as int, rows as int, col as int, row as int);
                    assert(columns * rows == layout.cell_count());
                }
                match self.cell(layout, row, col) {
                    Some(rect) => {
                        cells.push(rect);
                    },
                    None => {},
                }
                col = col + 1;
            }
            assert((row + 1) * columns == row * columns + columns) by (nonlinear_arith);
            row = row + 1;
        }
        assert(rows * columns == layout.cell_count());
        assert(cells@ =~= self@.cells(layout));
        Geometry { cells, band: self.band(layout), border: self.border(), gap: self.gap(layout) }
    }
}

} // verus!
