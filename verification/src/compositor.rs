//! The cell compositor: crops a photo to the shape of its cell, resizes it
//! to the cell's exact size and copies it onto the canvas.

use vstd::prelude::*;
use vstd::string::*;
use crate::error::{PhotoError, PlacementFault};
use crate::geometry::Rect;
use crate::raster::{Bitmap, Raster};
use crate::resample::{resample, resizable, resized};

verus! {

/// `a * b / c` rounded to the nearest integer, halves upward; 0 where `c` is
/// 0.
pub open spec fn scaled(a: int, b: int, c: int) -> int {
    if c == 0 {
        0
    } else {
        (2 * (a * b) + c) / (2 * c)
    }
}

/// Whether a source of `width` by `height` is relatively wider than a cell
/// of `cell_width` by `cell_height`.
pub open spec fn wider(width: int, height: int, cell_width: int, cell_height: int) -> bool {
    width * cell_height > height * cell_width
}

/// The centred window of a `width` by `height` source that has the shape of
/// the cell. A source that is relatively wider keeps its full height and
/// loses equal parts left and right; any other source keeps its full width
/// and loses equal parts above and below.
pub open spec fn crop_window_of(
    width: int,
    height: int,
    cell_width: int,
    cell_height: int,
) -> Rect {
    if wider(width, height, cell_width, cell_height) {
        let w = scaled(height, cell_width, cell_height);
        Rect { x: ((width - w) / 2) as u32, y: 0, width: w as u32, height: height as u32 }
    } else {
        let h = scaled(width, cell_height, cell_width);
        Rect { x: 0, y: ((height - h) / 2) as u32, width: width as u32, height: h as u32 }
    }
}

/// The scaled length does not exceed `limit` where `a * b <= limit * c`.
proof fn lemma_scaled_bound(a: int, b: int, c: int, limit: int)
    requires
        0 <= a,
        0 <= b,
        0 <= c,
        0 <= limit,
        a * b <= limit * c,
    ensures
        0 <= scaled(a, b, c) <= limit,
        a * b == limit * c && c > 0 ==> scaled(a, b, c) == limit,
{
    if c > 0 {
        let p = a * b;
        assert(0 <= p) by (nonlinear_arith)
            requires
                p == a * b,
                0 <= a,
                0 <= b,
        ;
        assert((2 * p + c) / (2 * c) <= limit && 0 <= (2 * p + c) / (2 * c)) by (nonlinear_arith)
            requires
                0 <= p <= limit * c,
                c > 0,
                0 <= limit,
        ;
        if p == limit * c {
            assert((2 * p + c) / (2 * c) == limit) by (nonlinear_arith)
                requires
                    p == limit * c,
                    c > 0,
                    0 <= limit,
            ;
        }
    }
}

/// The crop window lies inside the source and spans it fully in one
/// direction.
pub proof fn lemma_crop_window_inside(width: int, height: int, cell_width: int, cell_height: int)
    requires
        0 <= width <= u32::MAX,
        0 <= height <= u32::MAX,
        0 <= cell_width,
        0 <= cell_height,
    ensures
        ({
            let win = crop_window_of(width, height, cell_width, cell_height);
            &&& win.x + win.width <= width
            &&& win.y + win.height <= height
            &&& win.width == width || win.height == height
            &&& wider(width, height, cell_width, cell_height) ==> win.height == height && win.y == 0
                && win.x == (width - win.width) / 2
            &&& !wider(width, height, cell_width, cell_height) ==> win.width == width && win.x == 0
                && win.y == (height - win.height) / 2
        }),
{
    if wider(width, height, cell_width, cell_height) {
        assert(cell_height > 0) by (nonlinear_arith)
            requires
                width * cell_height > height * cell_width,
                0 <= height,
                0 <= cell_width,
                0 <= cell_height,
        ;
        lemma_scaled_bound(height, cell_width, cell_height, width);
    } else {
        assert(width * cell_height == cell_height * width) by (nonlinear_arith);
        assert(height * cell_width == cell_width * height) by (nonlinear_arith);
        assert(width * cell_height <= height * cell_width);
        lemma_scaled_bound(width, cell_height, cell_width, height);
    }
}

/// A source that already has the shape of the cell is not cropped: the
/// window is the whole source.
pub proof fn lemma_same_shape_keeps_all(width: int, height: int, cell_width: int, cell_height: int)
    requires
        0 <= width <= u32::MAX,
        0 <= height <= u32::MAX,
        0 < cell_width,
        0 < cell_height,
        width * cell_height == height * cell_width,
    ensures
        crop_window_of(width, height, cell_width, cell_height) == (Rect {
            x: 0,
            y: 0,
            width: width as u32,
            height: height as u32,
        }),
{
    assert(height * cell_width == cell_width * height) by (nonlinear_arith);
    lemma_scaled_bound(width, cell_height, cell_width, height);
}

/// `a * b / c` rounded to the nearest integer, halves upward; 0 where `c` is
/// 0.
pub fn scale(a: u32, b: u32, c: u32) -> (out: u128)
    ensures
        out == scaled(a as int, b as int, c as int),
{
    if c == 0 {
        return 0;
    }
    assert(a * b <= 0xffff_ffff * 0xffff_ffff) by (nonlinear_arith)
        requires
            0 <= a <= 0xffff_ffff,
            0 <= b <= 0xffff_ffff,
    ;
    let product: u128 = a as u128 * b as u128;
    (2 * product + c as u128) / (2 * c as u128)
}

/// Computes the centred window of a `width` by `height` source that has the
/// shape of a `cell_width` by `cell_height` cell.
pub fn crop_window(width: u32, height: u32, cell_width: u32, cell_height: u32) -> (out: Rect)
    ensures
        out == crop_window_of(width as int, height as int, cell_width as int, cell_height as int),
        out.x + out.width <= width,
        out.y + out.height <= height,
{
    proof {
        lemma_crop_window_inside(
            width as int,
            height as int,
            cell_width as int,
            cell_height as int,
        );
        assert(width * cell_height <= 0xffff_ffff * 0xffff_ffff) by (nonlinear_arith)
            requires
                0 <= width <= 0xffff_ffff,
                0 <= cell_height <= 0xffff_ffff,
        ;
        assert(height * cell_width <= 0xffff_ffff * 0xffff_ffff) by (nonlinear_arith)
            requires
                0 <= height <= 0xffff_ffff,
                0 <= cell_width <= 0xffff_ffff,
        ;
    }
    if width as u64 * cell_height as u64 > height as u64 * cell_width as u64 {
        let w = scale(height, cell_width, cell_height) as u32;
        Rect { x: (width - w) / 2, y: 0, width: w, height }
    } else {
        let h = scale(width, cell_height, cell_width) as u32;
        Rect { x: 0, y: (height - h) / 2, width, height: h }
    }
}

/// The part of `photo` that crop-to-fill keeps for a cell of `width` by
/// `height`.
pub open spec fn crop_of(photo: Bitmap, width: int, height: int) -> Bitmap {
    let win = crop_window_of(photo.width, photo.height, width, height);
    photo.cropped(win.x as int, win.y as int, win.width as int, win.height as int)
}

/// Of a photo that already has the shape of the cell no pixel is cropped:
/// what crop-to-fill keeps is the whole photo.
pub proof fn lemma_same_shape_keeps_photo(photo: Bitmap, width: int, height: int)
    requires
        photo.wf(),
        photo.width <= u32::MAX,
        photo.height <= u32::MAX,
        0 < width,
        0 < height,
        photo.width * height == photo.height * width,
    ensures
        crop_of(photo, width, height) == photo,
{
    lemma_same_shape_keeps_all(photo.width, photo.height, width, height);
    let kept = crop_of(photo, width, height);
    assert forall|y: int| 0 <= y < photo.height implies #[trigger] kept.rows[y]
        =~= photo.rows[y] by {}
    assert(kept.rows =~= photo.rows);
}

/// `photo` fitted to a cell of `width` by `height`: what crop-to-fill keeps
/// of it, resized to exactly the cell's size.
pub open spec fn fit_of(photo: Bitmap, width: int, height: int) -> Bitmap {
    resized(crop_of(photo, width, height), width, height)
}

/// Whether a photo of `photo_width` by `photo_height` can be fitted to a
/// cell of `width` by `height`: its crop window must be resizable to the
/// cell's size.
pub open spec fn fittable(photo_width: int, photo_height: int, width: int, height: int) -> bool {
    let win = crop_window_of(photo_width, photo_height, width, height);
    resizable(win.width as int, win.height as int, width, height)
}

/// Crops `photo` to the shape of a `width` by `height` cell and resizes the
/// crop to exactly that size, so that the photo fills the cell with no bars.
///
/// Fails with `Oversized` exactly where the crop cannot be resized.
pub fn fit_photo(photo: &Raster, width: u32, height: u32) -> (out: Result<Raster, PlacementFault>)
    ensures
        out is Ok <==> fittable(photo@.width, photo@.height, width as int, height as int),
        out matches Ok(r) ==> r@ == fit_of(photo@, width as int, height as int),
        out matches Ok(r) ==> ({
            let win = crop_window_of(photo@.width, photo@.height, width as int, height as int);
            win.width == width && win.height == height ==> r@ == crop_of(
                photo@,
                width as int,
                height as int,
            )
        }),
        out matches Err(e) ==> e == PlacementFault::Oversized,
{
    proof {
        use_type_invariant(photo);
    }
    let win = crop_window(photo.width(), photo.height(), width, height);
    let cropped = photo.crop(win.x, win.y, win.width, win.height).unwrap();
    resample(&cropped, width, height)
}

/// A photo as it was supplied: the path it came from and, where the file
/// could be read and decoded, its pixels.
pub struct SourcePhoto {
    pub path: String,
    pub pixels: Option<Raster>,
}

/// The mathematical model of a supplied photo.
pub struct Source {
    pub path: Seq<char>,
    pub pixels: Option<Bitmap>,
}

impl View for SourcePhoto {
    type V = Source;

    open spec fn view(&self) -> Source {
        Source {
            path: self.path@,
            pixels: match self.pixels {
                Some(r) => Some(r@),
                None => None,
            },
        }
    }
}

/// Places `photo` in `cell` of `canvas`: crop to the cell's shape, resize to
/// the cell's size, copy to the cell's place, so that the photo fills the
/// cell exactly.
///
/// Fails with `Unreadable` and the photo's path where the photo has no
/// pixels, with `Oversized` where the crop cannot be resized, and otherwise
/// with `OutsideCanvas` where the cell reaches past the canvas: pixels are
/// never clipped. A failure leaves the canvas as it was.
pub fn place_photo(canvas: &mut Raster, photo: &SourcePhoto, cell: Rect) -> (out: Result<
    (),
    PhotoError,
>)
    ensures
        out is Ok <==> (photo@.pixels matches Some(p) && fittable(
            p.width,
            p.height,
            cell.width as int,
            cell.height as int,
        ) && old(canvas)@.holds(
            cell.x as int,
            cell.y as int,
            cell.width as int,
            cell.height as int,
        )),
        out matches Err(e) ==> final(canvas)@ == old(canvas)@ && match e {
            PhotoError::Unreadable(path) => photo@.pixels is None && path@ == photo@.path,
            PhotoError::Placement(reason) => photo@.pixels matches Some(p) && (reason
                == PlacementFault::Oversized <==> !fittable(
                p.width,
                p.height,
                cell.width as int,
                cell.height as int,
            )),
        },
        out is Ok ==> final(canvas)@ == old(canvas)@.pasted(
            fit_of(photo@.pixels->0, cell.width as int, cell.height as int),
            cell.x as int,
            cell.y as int,
        ),
{
    match &photo.pixels {
        None => Err(PhotoError::Unreadable(photo.path.clone())),
        Some(pixels) => match fit_photo(pixels, cell.width, cell.height) {
            Err(reason) => Err(PhotoError::Placement(reason)),
            Ok(fit) => {
                match canvas.paste(&fit, cell.x, cell.y) {
                    Ok(_) => Ok(()),
                    Err(reason) => Err(PhotoError::Placement(reason)),
                }
            },
        },
    }
}

} // verus!
