//! Resizing a raster to exact pixel dimensions with the Lanczos filter of
//! the `image` crate.

use vstd::prelude::*;
use crate::error::PlacementFault;
use crate::raster::{lemma_unpack_packed, Bitmap, Raster};

verus! {

/// Whether a raster of `width` by `height` pixels can be resized to
/// `new_width` by `new_height`: the source, the intermediate picture (source
/// width, new height) and the result must each be addressable as four
/// channels to the pixel.
pub open spec fn resizable(width: int, height: int, new_width: int, new_height: int) -> bool {
    &&& 4 * (width * height) <= usize::MAX
    &&& 4 * (width * new_height) <= usize::MAX
    &&& 4 * (new_width * new_height) <= usize::MAX
}

/// The RGBA bytes that `image::imageops::resize` with the Lanczos filter of
/// window 3 makes of the RGBA bytes of a `width` by `height` picture when it
/// is asked for `new_width` by `new_height` pixels.
pub uninterp spec fn lanczos3_of(
    bytes: Seq<u8>,
    width: int,
    height: int,
    new_width: int,
    new_height: int,
) -> Seq<u8>;

/// `source` resized to `width` by `height` pixels.
pub open spec fn resized(source: Bitmap, width: int, height: int) -> Bitmap {
    Bitmap::of_rgba_bytes(
        width,
        height,
        lanczos3_of(source.rgba_bytes(), source.width, source.height, width, height),
    )
}

/// Calls `image::imageops::resize` with `FilterType::Lanczos3` on RGBA bytes.
///
/// The contract claims of it: the call reads nothing but its arguments, so
/// that its result is the named function of them; the result has exactly
/// the requested dimensions; and where these are the source's own the
/// result is a copy of the source. What the filter makes of the pixels
/// otherwise is not described. The size bounds rule out the buffer sizes on
/// which the call panics.
#[verifier::external_body]
fn lanczos3(bytes: Vec<u8>, width: u32, height: u32, new_width: u32, new_height: u32) -> (out: Vec<
    u8,
>)
    requires
        bytes@.len() == 4 * (width * height),
        resizable(width as int, height as int, new_width as int, new_height as int),
    ensures
        out@ == lanczos3_of(
            bytes@,
            width as int,
            height as int,
            new_width as int,
            new_height as int,
        ),
        out@.len() == 4 * (new_width * new_height),
        new_width == width && new_height == height ==> out@ == bytes@,
{
    let source = image::RgbaImage::from_raw(width, height, bytes).unwrap();
    let filter = image::imageops::FilterType::Lanczos3;
    image::imageops::resize(&source, new_width, new_height, filter).into_raw()
}

fn fits(a: u32, b: u32) -> (out: bool)
    ensures
        out <==> 4 * (a * b) <= usize::MAX,
{
    assert(a * b <= 0xffff_ffff * 0xffff_ffff) by (nonlinear_arith)
        requires
            0 <= a <= 0xffff_ffff,
            0 <= b <= 0xffff_ffff,
    ;
    4 * (a as u128 * b as u128) <= usize::MAX as u128
}

/// Resizes `source` to exactly `width` by `height` pixels with a Lanczos
/// filter of window 3.
///
/// Fails with `Oversized` exactly where the pictures involved cannot be
/// addressed. A resize to the source's own dimensions returns the source
/// unchanged.
pub fn resample(source: &Raster, width: u32, height: u32) -> (out: Result<Raster, PlacementFault>)
    ensures
        out is Ok <==> resizable(source@.width, source@.height, width as int, height as int),
        out matches Ok(r) ==> r@ == resized(source@, width as int, height as int),
        out matches Ok(r) ==> (width == source@.width && height == source@.height ==> r@
            == source@),
        out matches Err(e) ==> e == PlacementFault::Oversized,
{
    proof {
        use_type_invariant(source);
    }
    if !fits(source.width(), height) || !fits(width, height) {
        return Err(PlacementFault::Oversized);
    }
    match source.to_rgba_bytes() {
        None => Err(PlacementFault::Oversized),
        Some(bytes) => {
            let resized = lanczos3(bytes, source.width(), source.height(), width, height);
            let out = Raster::from_rgba_bytes(width, height, &resized).unwrap();
            proof {
                use_type_invariant(&out);
                if width == source@.width && height == source@.height {
                    lemma_unpack_packed(source@);
                }
            }
            Ok(out)
        },
    }
}

} // verus!
