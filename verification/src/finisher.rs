//! The sheet finisher: shrinks the composed sheet and centres it on a fresh
//! canvas, so that a uniform margin surrounds the whole artwork.

use vstd::prelude::*;
use crate::error::PlacementFault;
use crate::geometry::{lemma_cell_inside, LayoutVariant, Sheet, SheetSpec};
use crate::pixel::Pixel;
use crate::raster::{Bitmap, Raster};
use crate::resample::{resample, resizable, resized};

verus! {

impl Sheet {
    /// Width of the artwork inside the outer margin.
    pub open spec fn inner_width(self) -> int {
        self.width() - 2 * self.border()
    }

    /// Height of the artwork inside the outer margin.
    pub open spec fn inner_height(self) -> int {
        self.height() - 2 * self.border()
    }
}

impl SheetSpec {
    /// Width of the artwork inside the outer margin, in pixels.
    pub fn inner_width(&self) -> (out: u32)
        ensures
            out == self@.inner_width(),
    {
        proof {
            use_type_invariant(self);
            lemma_cell_inside(self@, LayoutVariant::C, 0, 0);
        }
        self.width() - 2 * self.border()
    }

    /// Height of the artwork inside the outer margin, in pixels.
    pub fn inner_height(&self) -> (out: u32)
        ensures
            out == self@.inner_height(),
    {
        proof {
            use_type_invariant(self);
            lemma_cell_inside(self@, LayoutVariant::C, 0, 0);
        }
        self.height() - 2 * self.border()
    }
}

/// A canvas of the sheet's size in `background` with `inner` copied onto it
/// one border in from the left and from the top.
pub open spec fn framed(inner: Bitmap, sheet: Sheet, background: Pixel) -> Bitmap {
    Bitmap::filled(sheet.width(), sheet.height(), background).pasted(
        inner,
        sheet.border(),
        sheet.border(),
    )
}

/// Whether `(x, y)` lies in the outer margin of the sheet: within one
/// border of an edge.
pub open spec fn in_margin(sheet: Sheet, x: int, y: int) -> bool {
    &&& 0 <= x < sheet.width()
    &&& 0 <= y < sheet.height()
    &&& x < sheet.border() || x >= sheet.width() - sheet.border() || y < sheet.border() || y
        >= sheet.height() - sheet.border()
}

/// Artwork of the inner size leaves a margin of the background colour, one
/// border wide, on all four sides of the sheet, and shows unchanged inside
/// it.
pub proof fn lemma_framed(inner: Bitmap, sheet: Sheet, background: Pixel)
    requires
        sheet.wf(),
        inner.wf(),
        inner.width == sheet.inner_width(),
        inner.height == sheet.inner_height(),
    ensures
        framed(inner, sheet, background).wf(),
        framed(inner, sheet, background).width == sheet.width(),
        framed(inner, sheet, background).height == sheet.height(),
        forall|x: int, y: int|
            in_margin(sheet, x, y) ==> #[trigger] framed(inner, sheet, background).at(x, y)
                == background,
        forall|x: int, y: int|
            inner.contains(x, y) ==> #[trigger] framed(inner, sheet, background).at(
                x + sheet.border(),
                y + sheet.border(),
            ) == inner.at(x, y),
{
    lemma_cell_inside(sheet, LayoutVariant::C, 0, 0);
}

/// Copies `inner` onto a fresh canvas of the sheet's size, filled with
/// `background`, one border in from the left and from the top.
///
/// Fails with `OutsideCanvas` exactly where `inner` would reach past the
/// canvas.
pub fn frame(inner: &Raster, sheet: &SheetSpec, background: Pixel) -> (out: Result<
    Raster,
    PlacementFault,
>)
    ensures
        out is Ok <==> sheet@.border() + inner@.width <= sheet@.width() && sheet@.border()
            + inner@.height <= sheet@.height(),
        out matches Ok(r) ==> r@ == framed(inner@, sheet@, background),
        out matches Err(e) ==> e == PlacementFault::OutsideCanvas,
{
    proof {
        use_type_invariant(sheet);
        use_type_invariant(inner);
        lemma_cell_inside(sheet@, LayoutVariant::C, 0, 0);
    }
    let mut canvas = Raster::filled(sheet.width(), sheet.height(), background);
    match canvas.paste(inner, sheet.border(), sheet.border()) {
        Ok(_) => Ok(canvas),
        Err(e) => Err(e),
    }
}

/// Reframes the composed sheet: resizes it to the sheet's size less one
/// border on every side and copies it, centred, onto a fresh canvas of the
/// sheet's size filled with `background`.
///
/// Fails with `Oversized` exactly where the composed sheet cannot be
/// resized.
pub fn reframe(composited: &Raster, sheet: &SheetSpec, background: Pixel) -> (out: Result<
    Raster,
    PlacementFault,
>)
    ensures
        out is Ok <==> resizable(
            composited@.width,
            composited@.height,
            sheet@.inner_width(),
            sheet@.inner_height(),
        ),
        out matches Ok(r) ==> r@ == framed(
            resized(composited@, sheet@.inner_width(), sheet@.inner_height()),
            sheet@,
            background,
        ) && r@.width == sheet@.width() && r@.height == sheet@.height(),
        out matches Ok(r) ==> (composited@.width == sheet@.inner_width() && composited@.height
            == sheet@.inner_height() ==> r@ == framed(composited@, sheet@, background)),
        out matches Err(e) ==> e == PlacementFault::Oversized,
{
    proof {
        use_type_invariant(sheet);
    }
    match resample(composited, sheet.inner_width(), sheet.inner_height()) {
        Err(e) => Err(e),
        Ok(inner) => {
            proof {
                use_type_invariant(&inner);
                lemma_framed(inner@, sheet@, background);
            }
            frame(&inner, sheet, background)
        },
    }
}

} // verus!
