//! The layout strategies: from photos, colour mode and branding to the
//! finished canvas.

use vstd::prelude::*;
use vstd::string::*;
use crate::branding::{
    branded, captions_wf, draw_branding, fit_logo, lemma_branded_frame, lemma_captions_of,
    logo_fittable, mark_of, BrandingSpec, Captions,
};
use crate::compositor::{fit_of, fit_photo, fittable, Source, SourcePhoto};
use crate::error::{ComposeError, PlacementFault};
use crate::geometry::{
    lemma_cell_inside, lemma_cells_apart, Geometry, LayoutVariant, Rect, Sheet, SheetSpec,
};
use crate::mode::{apply_color_mode, lemma_toned_idempotent, toned, ColorMode};
use crate::raster::{lemma_grayed_idempotent, Bitmap, Raster};

verus! {

/// The models of a list of photos.
pub open spec fn sources(photos: Seq<SourcePhoto>) -> Seq<Source> {
    Seq::new(photos.len(), |i: int| photos[i]@)
}

/// The models of a list of rasters.
pub open spec fn bitmaps(rasters: Seq<Raster>) -> Seq<Bitmap> {
    Seq::new(rasters.len(), |i: int| rasters[i]@)
}

impl LayoutVariant {
    /// How many of `supplied` photos the layout uses: all of them up to the
    /// number it takes, and none beyond.
    pub open spec fn spec_consumed(self, supplied: usize) -> usize {
        if supplied < self.spec_photo_count() {
            supplied
        } else {
            self.spec_photo_count()
        }
    }

    /// How many of `supplied` photos the layout uses: all of them up to the
    /// number it takes, and none beyond.
    #[verifier::when_used_as_spec(spec_consumed)]
    pub fn consumed(self, supplied: usize) -> (out: usize)
        ensures
            out == self.spec_consumed(supplied),
    {
        let count = self.photo_count();
        if supplied < count {
            supplied
        } else {
            count
        }
    }

    /// The row of the cells of photo `i`.
    pub open spec fn row_of(self, i: int) -> int {
        match self {
            LayoutVariant::A => 0,
            LayoutVariant::B => i / 2,
            LayoutVariant::C => i,
        }
    }

    /// The column of the cell of photo `i`; in the twin layout, of the left
    /// one of its two cells.
    pub open spec fn column_of(self, i: int) -> int {
        match self {
            LayoutVariant::A => 0,
            LayoutVariant::B => i % 2,
            LayoutVariant::C => 0,
        }
    }

    /// The cell that photo `i` goes to; in the twin layout, the left one of
    /// its two cells.
    pub open spec fn home(self, sheet: Sheet, i: int) -> Rect {
        sheet.cell(self, self.row_of(i), self.column_of(i))
    }

    /// In the twin layout, the right one of the two cells of photo `i`.
    pub open spec fn twin_home(self, sheet: Sheet, i: int) -> Rect {
        sheet.cell(self, i, 1)
    }
}

/// `canvas` with `fit` copied to the cell of photo `i`, and in the twin
/// layout to both of its cells.
pub open spec fn with_photo(
    canvas: Bitmap,
    sheet: Sheet,
    layout: LayoutVariant,
    i: int,
    fit: Bitmap,
) -> Bitmap {
    let home = layout.home(sheet, i);
    let once = canvas.pasted(fit, home.x as int, home.y as int);
    if layout.spec_twin() {
        let twin = layout.twin_home(sheet, i);
        once.pasted(fit, twin.x as int, twin.y as int)
    } else {
        once
    }
}

/// `canvas` with each of `fits` copied to its cell, in order.
pub open spec fn placed(
    canvas: Bitmap,
    sheet: Sheet,
    layout: LayoutVariant,
    fits: Seq<Bitmap>,
) -> Bitmap
    decreases fits.len(),
{
    if fits.len() == 0 {
        canvas
    } else {
        with_photo(
            placed(canvas, sheet, layout, fits.drop_last()),
            sheet,
            layout,
            fits.len() - 1,
            fits.last(),
        )
    }
}

/// The finished sheet: a canvas of the sheet's size in the background of
/// the mode, the fitted photos copied to their cells, the colour transform
/// over all of it, and the branding over that.
pub open spec fn sheet_of(
    sheet: Sheet,
    layout: LayoutVariant,
    mode: ColorMode,
    fits: Seq<Bitmap>,
    lines: Captions,
    mark: Bitmap,
) -> Bitmap {
    let blank = Bitmap::filled(sheet.width(), sheet.height(), mode.spec_background());
    branded(toned(placed(blank, sheet, layout, fits), mode), sheet, layout, mode, lines, mark)
}

/// Whether `fit` would reach past the canvas of `sheet` in a cell of photo
/// `i`.
pub open spec fn misfit(sheet: Sheet, layout: LayoutVariant, i: int, fit: Bitmap) -> bool {
    let home = layout.home(sheet, i);
    let twin = layout.twin_home(sheet, i);
    let sits = home.x + fit.width <= sheet.width() && home.y + fit.height <= sheet.height();
    let twin_sits = twin.x + fit.width <= sheet.width() && twin.y + fit.height <= sheet.height();
    !sits || (layout.spec_twin() && !twin_sits)
}

/// The index of the first of the first `n` fits that reaches past the
/// canvas.
pub open spec fn first_misfit(
    sheet: Sheet,
    layout: LayoutVariant,
    fits: Seq<Bitmap>,
    n: int,
) -> Option<int>
    decreases n,
{
    if n <= 0 {
        None
    } else {
        match first_misfit(sheet, layout, fits, n - 1) {
            Some(i) => Some(i),
            None => if misfit(sheet, layout, n - 1, fits[n - 1]) {
                Some(n - 1)
            } else {
                None
            },
        }
    }
}

/// Once one of the first `m` fits reaches past the canvas, it stays the
/// first to do so however many more are looked at.
pub proof fn lemma_first_misfit_stays(
    sheet: Sheet,
    layout: LayoutVariant,
    fits: Seq<Bitmap>,
    m: int,
    n: int,
)
    requires
        m <= n,
        first_misfit(sheet, layout, fits, m) is Some,
    ensures
        first_misfit(sheet, layout, fits, n) == first_misfit(sheet, layout, fits, m),
    decreases n - m,
{
    if m < n {
        lemma_first_misfit_stays(sheet, layout, fits, m, n - 1);
    }
}

/// Copying fits to their cells keeps the canvas well formed and of its
/// size.
pub proof fn lemma_placed_frame(
    canvas: Bitmap,
    sheet: Sheet,
    layout: LayoutVariant,
    fits: Seq<Bitmap>,
)
    requires
        canvas.wf(),
    ensures
        placed(canvas, sheet, layout, fits).wf(),
        placed(canvas, sheet, layout, fits).width == canvas.width,
        placed(canvas, sheet, layout, fits).height == canvas.height,
    decreases fits.len(),
{
    if fits.len() > 0 {
        lemma_placed_frame(canvas, sheet, layout, fits.drop_last());
    }
}

/// The finished sheet has exactly the size of the sheet, whatever the
/// layout, the mode and the photos.
pub proof fn lemma_sheet_size(
    sheet: Sheet,
    layout: LayoutVariant,
    mode: ColorMode,
    fits: Seq<Bitmap>,
    lines: Captions,
    mark: Bitmap,
)
    requires
        sheet.wf(),
        captions_wf(lines),
    ensures
        sheet_of(sheet, layout, mode, fits, lines, mark).wf(),
        sheet_of(sheet, layout, mode, fits, lines, mark).width == sheet.width(),
        sheet_of(sheet, layout, mode, fits, lines, mark).height == sheet.height(),
{
    lemma_cell_inside(sheet, layout, 0, 0);
    let blank = Bitmap::filled(sheet.width(), sheet.height(), mode.spec_background());
    assert(sheet.width() >= 0 && sheet.height() >= 0);
    assert(blank.wf());
    lemma_placed_frame(blank, sheet, layout, fits);
    let photos = placed(blank, sheet, layout, fits);
    lemma_toned_idempotent(photos, mode);
    lemma_branded_frame(toned(photos, mode), sheet, layout, mode, lines, mark);
}

fn home_in(
    sheet: &SheetSpec,
    geometry: &Geometry,
    layout: LayoutVariant,
    i: usize,
    right: bool,
) -> (out: Rect)
    requires
        geometry.cells@ == sheet@.cells(layout),
        i < layout.spec_photo_count(),
        right ==> layout.spec_twin(),
    ensures
        out == if right {
            layout.twin_home(sheet@, i as int)
        } else {
            layout.home(sheet@, i as int)
        },
        out.width == sheet@.cell_width(layout),
        out.height == sheet@.cell_height(layout),
        out.x + out.width <= sheet@.width(),
        out.y + out.height <= sheet@.height(),
{
    let k: usize = match layout {
        LayoutVariant::A => 0,
        LayoutVariant::B => i,
        LayoutVariant::C => if right {
            2 * i + 1
        } else {
            2 * i
        },
    };
    proof {
        use_type_invariant(sheet);
        match layout {
            LayoutVariant::A => {
                lemma_cell_inside(sheet@, layout, 0, 0);
                assert(sheet@.cells(layout)[0] == sheet@.cell(layout, 0, 0));
            },
            LayoutVariant::B => {
                lemma_cell_inside(sheet@, layout, k as int / 2, k as int % 2);
                assert(sheet@.cells(layout)[k as int] == sheet@.cell(
                    layout,
                    k as int / 2,
                    k as int % 2,
                ));
            },
            LayoutVariant::C => {
                lemma_cell_inside(sheet@, layout, k as int / 2, k as int % 2);
                assert(sheet@.cells(layout)[k as int] == sheet@.cell(
                    layout,
                    k as int / 2,
                    k as int % 2,
                ));
            },
        }
    }
    geometry.cells[k]
}

/// Composes the sheet from photos that are already fitted to their cells
/// and a logo that is already at its size: a canvas of the sheet's size in
/// the background of the mode, each fit copied to its cell, the colour
/// transform, the branding.
///
/// The layout uses the fits it has cells for and ignores the rest. A fit
/// that reaches past the canvas fails the request with the index of the
/// first such fit.
pub fn compose_fitted(
    sheet: &SheetSpec,
    layout: LayoutVariant,
    fits: &Vec<Raster>,
    mode: ColorMode,
    branding: &BrandingSpec,
    mark: &Raster,
) -> (out: Result<Raster, ComposeError>)
    ensures
        ({
            let n = layout.spec_consumed(fits.len()) as int;
            let used = bitmaps(fits@).take(n);
            &&& out is Ok <==> first_misfit(sheet@, layout, used, n) is None
            &&& out matches Ok(r) ==> r@ == sheet_of(
                sheet@,
                layout,
                mode,
                used,
                branding.captions(),
                mark@,
            ) && r@.width == sheet@.width() && r@.height == sheet@.height()
            &&& out matches Err(e) ==> e matches ComposeError::PhotoPlacement(i, reason)
                && first_misfit(sheet@, layout, used, n) == Some(i as int) && reason
                == PlacementFault::OutsideCanvas
        }),
{
    let geometry = sheet.resolve(layout);
    assemble(sheet, &geometry, layout, fits, mode, branding, mark)
}

fn assemble(
    sheet: &SheetSpec,
    geometry: &Geometry,
    layout: LayoutVariant,
    fits: &Vec<Raster>,
    mode: ColorMode,
    branding: &BrandingSpec,
    mark: &Raster,
) -> (out: Result<Raster, ComposeError>)
    requires
        geometry.cells@ == sheet@.cells(layout),
    ensures
        ({
            let n = layout.spec_consumed(fits.len()) as int;
            let used = bitmaps(fits@).take(n);
            &&& out is Ok <==> first_misfit(sheet@, layout, used, n) is None
            &&& out matches Ok(r) ==> r@ == sheet_of(
                sheet@,
                layout,
                mode,
                used,
                branding.captions(),
                mark@,
            ) && r@.width == sheet@.width() && r@.height == sheet@.height()
            &&& out matches Err(e) ==> e matches ComposeError::PhotoPlacement(i, reason)
                && first_misfit(sheet@, layout, used, n) == Some(i as int) && reason
                == PlacementFault::OutsideCanvas
        }),
{
    let n = layout.consumed(fits.len());
    let ghost used = bitmaps(fits@).take(n as int);
    let ghost blank = Bitmap::filled(sheet@.width(), sheet@.height(), mode.spec_background());
    let mut canvas = Raster::filled(sheet.width(), sheet.height(), mode.background());
    proof {
        use_type_invariant(sheet);
        assert(used.take(0) =~= Seq::<Bitmap>::empty());
    }
    let mut i: usize = 0;
    while i < n
        invariant
            i <= n,
            n == layout.spec_consumed(fits.len()),
            geometry.cells@ == sheet@.cells(layout),
            used == bitmaps(fits@).take(n as int),
            blank == Bitmap::filled(sheet@.width(), sheet@.height(), mode.spec_background()),
            sheet@.wf(),
            blank.wf(),
            canvas@ == placed(blank, sheet@, layout, used.take(i as int)),
            first_misfit(sheet@, layout, used, i as int) is None,
        decreases n - i,
    {
        let fit = &fits[i];
        proof {
            lemma_placed_frame(blank, sheet@, layout, used.take(i as int));
            assert(used.take(i + 1).drop_last() =~= used.take(i as int));
            assert(used.take(i + 1).last() == used[i as int]);
            assert(used[i as int] == fit@);
            use_type_invariant(fit);
        }
        let home = home_in(sheet, geometry, layout, i, false);
        match canvas.paste(fit, home.x, home.y) {
            Err(_) => {
                proof {
                    assert(misfit(sheet@, layout, i as int, used[i as int]));
                    assert(first_misfit(sheet@, layout, used, i + 1) == Some(i as int));
                    lemma_first_misfit_stays(sheet@, layout, used, i + 1, n as int);
                }
                return Err(ComposeError::PhotoPlacement(i, PlacementFault::OutsideCanvas));
            },
            Ok(_) => {},
        }
        if layout.twin() {
            let twin = home_in(sheet, geometry, layout, i, true);
            match canvas.paste(fit, twin.x, twin.y) {
                Err(_) => {
                    proof {
                        assert(misfit(sheet@, layout, i as int, used[i as int]));
                        assert(first_misfit(sheet@, layout, used, i + 1) == Some(i as int));
                        lemma_first_misfit_stays(sheet@, layout, used, i + 1, n as int);
                    }
                    return Err(ComposeError::PhotoPlacement(i, PlacementFault::OutsideCanvas));
                },
                Ok(_) => {},
            }
        }
        assert(!misfit(sheet@, layout, i as int, used[i as int]));
        i = i + 1;
    }
    proof {
        assert(used.take(n as int) =~= used);
        lemma_captions_of(branding);
        lemma_sheet_size(sheet@, layout, mode, used, branding.captions(), mark@);
    }
    apply_color_mode(&mut canvas, mode);
    draw_branding(&mut canvas, sheet, layout, mode, branding, mark);
    Ok(canvas)
}

/// Whether a supplied photo cannot be used for a cell of `width` by
/// `height`: it could not be read, or it cannot be fitted.
pub open spec fn faulty(source: Source, width: int, height: int) -> bool {
    match source.pixels {
        None => true,
        Some(p) => !fittable(p.width, p.height, width, height),
    }
}

/// The index of the first of the first `n` photos that cannot be used.
pub open spec fn first_fault(photos: Seq<Source>, n: int, width: int, height: int) -> Option<int>
    decreases n,
{
    if n <= 0 {
        None
    } else {
        match first_fault(photos, n - 1, width, height) {
            Some(i) => Some(i),
            None => if faulty(photos[n - 1], width, height) {
                Some(n - 1)
            } else {
                None
            },
        }
    }
}

/// Once one of the first `m` photos cannot be used, it stays the first such
/// photo however many more are looked at.
pub proof fn lemma_first_fault_stays(photos: Seq<Source>, m: int, n: int, width: int, height: int)
    requires
        m <= n,
        first_fault(photos, m, width, height) is Some,
    ensures
        first_fault(photos, n, width, height) == first_fault(photos, m, width, height),
    decreases n - m,
{
    if m < n {
        lemma_first_fault_stays(photos, m, n - 1, width, height);
    }
}

/// Fits of exactly the cell's size, no more of them than the layout takes,
/// all lie on the canvas.
pub proof fn lemma_fits_sit(sheet: Sheet, layout: LayoutVariant, fits: Seq<Bitmap>, n: int)
    requires
        sheet.wf(),
        0 <= n <= fits.len(),
        n <= layout.spec_photo_count(),
        forall|i: int|
            0 <= i < n ==> (#[trigger] fits[i]).width == sheet.cell_width(layout) && fits[i].height
                == sheet.cell_height(layout),
    ensures
        first_misfit(sheet, layout, fits, n) is None,
    decreases n,
{
    if n > 0 {
        lemma_fits_sit(sheet, layout, fits, n - 1);
        let i = n - 1;
        match layout {
            LayoutVariant::A => {
                lemma_cell_inside(sheet, layout, 0, 0);
            },
            LayoutVariant::B => {
                lemma_cell_inside(sheet, layout, i / 2, i % 2);
            },
            LayoutVariant::C => {
                lemma_cell_inside(sheet, layout, i, 0);
                lemma_cell_inside(sheet, layout, i, 1);
            },
        }
        assert(fits[i].width == sheet.cell_width(layout));
    }
}

/// The first `n` photos, each fitted to a cell of `width` by `height`.
pub open spec fn fits_of(photos: Seq<Source>, n: int, width: int, height: int) -> Seq<Bitmap> {
    Seq::new(n as nat, |i: int| fit_of(photos[i].pixels->0, width, height))
}

/// Every fitted photo is well formed and has exactly the size of the cell,
/// so that what is shown of fits of that size holds of them.
pub proof fn lemma_fits_of_shape(photos: Seq<Source>, n: int, width: int, height: int)
    requires
        0 <= n,
        0 <= width,
        0 <= height,
    ensures
        fits_of(photos, n, width, height).len() == n,
        forall|i: int|
            0 <= i < n ==> {
                let fit = #[trigger] fits_of(photos, n, width, height)[i];
                fit.wf() && fit.width == width && fit.height == height
            },
{
}

/// The name of the first asset that the branding lacks: the logo of the
/// mode, where it is absent or cannot be brought to its height; else the
/// font of the first line that has no glyphs.
pub open spec fn missing_asset(
    mode: ColorMode,
    logo: Option<Bitmap>,
    logo_height: int,
    lines: Captions,
) -> Option<Seq<char>> {
    if !(logo matches Some(l) && logo_fittable(l.width, l.height, logo_height)) {
        Some(mode.logo_name())
    } else if lines.name.face is None {
        Some(lines.name.font)
    } else if lines.label.face is None {
        Some(lines.label.font)
    } else if lines.date.face is None {
        Some(lines.date.font)
    } else {
        None
    }
}

/// Composes the sheet of `layout`: resolves the geometry, fits each photo
/// that the layout uses to its cell and copies it there, applies the colour
/// transform, and draws the branding.
///
/// The layout uses the photos it has cells for, in the order given, and
/// ignores the rest; cells without a photo keep the background. The first
/// photo that could not be read, or cannot be fitted, fails the request and
/// is named in the error; after the photos, a logo that could not be
/// resolved or cannot be brought to its size fails it, and after the logo
/// the first font that could not be resolved. No canvas is returned from a
/// failed request.
pub fn compose(
    sheet: &SheetSpec,
    layout: LayoutVariant,
    photos: &Vec<SourcePhoto>,
    mode: ColorMode,
    branding: &BrandingSpec,
) -> (out: Result<Raster, ComposeError>)
    ensures
        ({
            let n = layout.spec_consumed(photos.len()) as int;
            let given = sources(photos@);
            let fault = first_fault(
                given,
                n,
                sheet@.cell_width(layout),
                sheet@.cell_height(layout),
            );
            let missing = missing_asset(
                mode,
                match branding.logo {
                    Some(l) => Some(l@),
                    None => None,
                },
                sheet@.logo_height(layout),
                branding.captions(),
            );
            &&& out is Ok <==> fault is None && missing is None
            &&& out matches Ok(r) ==> r@ == sheet_of(
                sheet@,
                layout,
                mode,
                fits_of(given, n, sheet@.cell_width(layout), sheet@.cell_height(layout)),
                branding.captions(),
                mark_of(branding.logo->0@, sheet@.logo_height(layout)),
            ) && r@.width == sheet@.width() && r@.height == sheet@.height()
            &&& out matches Err(e) ==> match e {
                ComposeError::PhotoUnreadable(path) => fault matches Some(i) && given[i].pixels
                    is None && path@ == given[i].path,
                ComposeError::PhotoPlacement(i, reason) => fault == Some(i as int)
                    && given[i as int].pixels is Some && reason == PlacementFault::Oversized,
                ComposeError::AssetUnavailable(name) => fault is None && missing == Some(name@),
                ComposeError::CanvasIoError(_, _) => false,
            }
        }),
{
    let n = layout.consumed(photos.len());
    let geometry = sheet.resolve(layout);
    proof {
        use_type_invariant(sheet);
        lemma_cell_inside(sheet@, layout, 0, 0);
        assert(geometry.cells@[0] == sheet@.cell(layout, 0, 0));
    }
    let width = geometry.cells[0].width;
    let height = geometry.cells[0].height;
    let ghost given = sources(photos@);
    let mut fits: Vec<Raster> = Vec::new();
    let mut i: usize = 0;
    while i < n
        invariant
            i <= n,
            n == layout.spec_consumed(photos.len()),
            given == sources(photos@),
            width == sheet@.cell_width(layout),
            height == sheet@.cell_height(layout),
            fits@.len() == i,
            first_fault(given, i as int, width as int, height as int) is None,
            forall|j: int|
                0 <= j < i ==> (#[trigger] fits@[j])@ == fit_of(
                    given[j].pixels->0,
                    width as int,
                    height as int,
                ),
        decreases n - i,
    {
        assert(given[i as int] == photos@[i as int]@);
        match &photos[i].pixels {
            None => {
                proof {
                    assert(first_fault(given, i + 1, width as int, height as int) == Some(
                        i as int,
                    ));
                    lemma_first_fault_stays(given, i + 1, n as int, width as int, height as int);
                }
                return Err(ComposeError::PhotoUnreadable(photos[i].path.clone()));
            },
            Some(pixels) => {
                match fit_photo(pixels, width, height) {
                    Err(reason) => {
                        proof {
                            assert(first_fault(given, i + 1, width as int, height as int) == Some(
                                i as int,
                            ));
                            lemma_first_fault_stays(
                                given,
                                i + 1,
                                n as int,
                                width as int,
                                height as int,
                            );
                        }
                        return Err(ComposeError::PhotoPlacement(i, reason));
                    },
                    Ok(fit) => {
                        fits.push(fit);
                    },
                }
            },
        }
        i = i + 1;
    }
    let mark = match &branding.logo {
        None => {
            return Err(ComposeError::AssetUnavailable(mode.logo_asset().to_owned()));
        },
        Some(logo) => match fit_logo(logo, sheet.logo_height(layout)) {
            Err(_) => {
                return Err(ComposeError::AssetUnavailable(mode.logo_asset().to_owned()));
            },
            Ok(mark) => mark,
        },
    };
    if branding.name.face.is_none() {
        return Err(ComposeError::AssetUnavailable(branding.name.font.clone()));
    }
    if branding.label.face.is_none() {
        return Err(ComposeError::AssetUnavailable(branding.label.font.clone()));
    }
    if branding.date.face.is_none() {
        return Err(ComposeError::AssetUnavailable(branding.date.font.clone()));
    }
    proof {
        use_type_invariant(sheet);
        let all = bitmaps(fits@);
        assert(all.take(n as int) =~= all);
        assert(all =~= fits_of(
            given,
            n as int,
            sheet@.cell_width(layout),
            sheet@.cell_height(layout),
        ));
        assert forall|j: int| 0 <= j < n implies (#[trigger] all[j]).width == sheet@.cell_width(
            layout,
        ) && all[j].height == sheet@.cell_height(layout) by {
            assert(all[j] == fits@[j]@);
        }
        lemma_fits_sit(sheet@, layout, all, n as int);
    }
    assemble(sheet, &geometry, layout, &fits, mode, branding, &mark)
}

/// Whether a cell of photo `i` covers the pixel `(x, y)`.
pub open spec fn in_cell_of(sheet: Sheet, layout: LayoutVariant, i: int, x: int, y: int) -> bool {
    layout.home(sheet, i).covers(x, y) || (layout.spec_twin() && layout.twin_home(sheet, i).covers(
        x,
        y,
    ))
}

/// A pixel that lies in no cell of a placed photo is as it was before the
/// photos were placed.
pub proof fn lemma_placed_elsewhere(
    canvas: Bitmap,
    sheet: Sheet,
    layout: LayoutVariant,
    fits: Seq<Bitmap>,
    x: int,
    y: int,
)
    requires
        canvas.wf(),
        canvas.contains(x, y),
        sheet.wf(),
        fits.len() <= layout.spec_photo_count(),
        forall|i: int|
            0 <= i < fits.len() ==> (#[trigger] fits[i]).width == sheet.cell_width(layout)
                && fits[i].height == sheet.cell_height(layout),
        forall|i: int| 0 <= i < fits.len() ==> !in_cell_of(sheet, layout, i, x, y),
    ensures
        placed(canvas, sheet, layout, fits).at(x, y) == canvas.at(x, y),
    decreases fits.len(),
{
    if fits.len() > 0 {
        let rest = fits.drop_last();
        let i = fits.len() - 1;
        assert forall|j: int| 0 <= j < rest.len() implies (#[trigger] rest[j]).width
            == sheet.cell_width(layout) && rest[j].height == sheet.cell_height(layout) by {
            assert(rest[j] == fits[j]);
        }
        lemma_placed_elsewhere(canvas, sheet, layout, rest, x, y);
        lemma_placed_frame(canvas, sheet, layout, rest);
        match layout {
            LayoutVariant::A => {
                lemma_cell_inside(sheet, layout, 0, 0);
            },
            LayoutVariant::B => {
                lemma_cell_inside(sheet, layout, i / 2, i % 2);
            },
            LayoutVariant::C => {
                lemma_cell_inside(sheet, layout, i, 0);
                lemma_cell_inside(sheet, layout, i, 1);
            },
        }
        assert(!in_cell_of(sheet, layout, i, x, y));
        assert(fits[i].width == sheet.cell_width(layout));
    }
}

/// Where fewer photos are supplied than the layout has cells for, the
/// cells left over keep the background of the mode: every pixel above the
/// band that lies in no cell of a supplied photo has the background colour
/// on the finished sheet.
pub proof fn lemma_background_kept(
    sheet: Sheet,
    layout: LayoutVariant,
    mode: ColorMode,
    fits: Seq<Bitmap>,
    lines: Captions,
    mark: Bitmap,
    x: int,
    y: int,
)
    requires
        sheet.wf(),
        captions_wf(lines),
        fits.len() <= layout.spec_photo_count(),
        forall|i: int|
            0 <= i < fits.len() ==> (#[trigger] fits[i]).width == sheet.cell_width(layout)
                && fits[i].height == sheet.cell_height(layout),
        0 <= x < sheet.width(),
        0 <= y < sheet.height() - sheet.band_height(layout),
        forall|i: int| 0 <= i < fits.len() ==> !in_cell_of(sheet, layout, i, x, y),
    ensures
        sheet_of(sheet, layout, mode, fits, lines, mark).at(x, y) == mode.spec_background(),
{
    lemma_cell_inside(sheet, layout, 0, 0);
    let blank = Bitmap::filled(sheet.width(), sheet.height(), mode.spec_background());
    assert(blank.wf());
    let photos = placed(blank, sheet, layout, fits);
    lemma_placed_frame(blank, sheet, layout, fits);
    lemma_placed_elsewhere(blank, sheet, layout, fits, x, y);
    lemma_toned_idempotent(photos, mode);
    lemma_branded_frame(toned(photos, mode), sheet, layout, mode, lines, mark);
    assert(toned(photos, mode).contains(x, y));
}

/// On a monochrome sheet every pixel above the band is a neutral tone: its
/// red, green and blue are equal.
pub proof fn lemma_monochrome_neutral(
    sheet: Sheet,
    layout: LayoutVariant,
    fits: Seq<Bitmap>,
    lines: Captions,
    mark: Bitmap,
    x: int,
    y: int,
)
    requires
        sheet.wf(),
        captions_wf(lines),
        0 <= x < sheet.width(),
        0 <= y < sheet.height() - sheet.band_height(layout),
    ensures
        ({
            let p = sheet_of(sheet, layout, ColorMode::Monochrome, fits, lines, mark).at(x, y);
            p.r == p.g && p.g == p.b
        }),
{
    let mode = ColorMode::Monochrome;
    lemma_cell_inside(sheet, layout, 0, 0);
    let blank = Bitmap::filled(sheet.width(), sheet.height(), mode.spec_background());
    assert(blank.wf());
    let photos = placed(blank, sheet, layout, fits);
    lemma_placed_frame(blank, sheet, layout, fits);
    lemma_grayed_idempotent(photos);
    lemma_toned_idempotent(photos, mode);
    lemma_branded_frame(toned(photos, mode), sheet, layout, mode, lines, mark);
    assert(toned(photos, mode).contains(x, y));
    assert(photos.contains(x, y));
}

/// The cells of two different photos share no pixel, and neither do the two
/// cells of one photo in the twin layout.
pub proof fn lemma_homes_apart(sheet: Sheet, layout: LayoutVariant, i: int, j: int)
    requires
        sheet.wf(),
        0 <= i < layout.spec_photo_count(),
        0 <= j < layout.spec_photo_count(),
    ensures
        i != j ==> layout.home(sheet, i).apart(layout.home(sheet, j)),
        layout.spec_twin() ==> layout.home(sheet, i).apart(layout.twin_home(sheet, j)),
        layout.spec_twin() && i != j ==> layout.twin_home(sheet, i).apart(
            layout.twin_home(sheet, j),
        ),
{
    if i != j {
        lemma_cells_apart(
            sheet,
            layout,
            layout.row_of(i),
            layout.column_of(i),
            layout.row_of(j),
            layout.column_of(j),
        );
    }
    if layout.spec_twin() {
        lemma_cells_apart(sheet, layout, i, 0, j, 1);
        if i != j {
            lemma_cells_apart(sheet, layout, i, 1, j, 1);
        }
    }
}

/// Among photos placed in their cells, every cell shows its own photo: the
/// pixel at `(dx, dy)` of a cell of photo `i` is the pixel at `(dx, dy)` of
/// fit `i`, whatever was placed before or after.
pub proof fn lemma_placed_shows(
    canvas: Bitmap,
    sheet: Sheet,
    layout: LayoutVariant,
    fits: Seq<Bitmap>,
    i: int,
    right: bool,
    dx: int,
    dy: int,
)
    requires
        canvas.wf(),
        canvas.width == sheet.width(),
        canvas.height == sheet.height(),
        sheet.wf(),
        fits.len() <= layout.spec_photo_count(),
        forall|k: int|
            0 <= k < fits.len() ==> (#[trigger] fits[k]).width == sheet.cell_width(layout)
                && fits[k].height == sheet.cell_height(layout),
        0 <= i < fits.len(),
        right ==> layout.spec_twin(),
        0 <= dx < sheet.cell_width(layout),
        0 <= dy < sheet.cell_height(layout),
    ensures
        ({
            let cell = if right {
                layout.twin_home(sheet, i)
            } else {
                layout.home(sheet, i)
            };
            placed(canvas, sheet, layout, fits).at(cell.x + dx, cell.y + dy) == fits[i].at(dx, dy)
        }),
    decreases fits.len(),
{
    let cell = if right {
        layout.twin_home(sheet, i)
    } else {
        layout.home(sheet, i)
    };
    let x = cell.x + dx;
    let y = cell.y + dy;
    let rest = fits.drop_last();
    let j = fits.len() - 1;
    let before = placed(canvas, sheet, layout, rest);
    lemma_placed_frame(canvas, sheet, layout, rest);
    lemma_homes_apart(sheet, layout, i, j);
    lemma_homes_apart(sheet, layout, j, i);
    lemma_cell_inside(sheet, layout, layout.row_of(i), layout.column_of(i));
    lemma_cell_inside(sheet, layout, layout.row_of(j), layout.column_of(j));
    if layout.spec_twin() {
        lemma_cell_inside(sheet, layout, i, 1);
        lemma_cell_inside(sheet, layout, j, 1);
    }
    let home = layout.home(sheet, j);
    let twin = layout.twin_home(sheet, j);
    let fit = fits[j];
    assert(fit.width == sheet.cell_width(layout) && fit.height == sheet.cell_height(layout));
    assert(cell.covers(x, y));
    let once = before.pasted(fit, home.x as int, home.y as int);
    if i < j {
        assert forall|k: int| 0 <= k < rest.len() implies (#[trigger] rest[k]).width
            == sheet.cell_width(layout) && rest[k].height == sheet.cell_height(layout) by {
            assert(rest[k] == fits[k]);
        }
        lemma_placed_shows(canvas, sheet, layout, rest, i, right, dx, dy);
        assert(rest[i] == fits[i]);
        assert(!home.covers(x, y));
        assert(once.at(x, y) == before.at(x, y));
        if layout.spec_twin() {
            assert(!twin.covers(x, y));
        }
    } else {
        if right {
            assert(twin.covers(x, y));
        } else {
            assert(home.covers(x, y));
            assert(once.at(x, y) == fit.at(dx, dy));
            if layout.spec_twin() {
                assert(!twin.covers(x, y));
            }
        }
    }
}

/// On the finished sheet every cell shows its own photo, toned by the
/// colour mode and filling the cell from edge to edge: the pixel at
/// `(dx, dy)` of a cell of photo `i` is the pixel at `(dx, dy)` of fit `i`
/// after the colour transform. In the twin layout both cells of a photo
/// therefore show the same picture.
pub proof fn lemma_cell_shows_fit(
    sheet: Sheet,
    layout: LayoutVariant,
    mode: ColorMode,
    fits: Seq<Bitmap>,
    lines: Captions,
    mark: Bitmap,
    i: int,
    right: bool,
    dx: int,
    dy: int,
)
    requires
        sheet.wf(),
        captions_wf(lines),
        fits.len() <= layout.spec_photo_count(),
        forall|k: int|
            0 <= k < fits.len() ==> (#[trigger] fits[k]).wf() && fits[k].width
                == sheet.cell_width(layout) && fits[k].height == sheet.cell_height(layout),
        0 <= i < fits.len(),
        right ==> layout.spec_twin(),
        0 <= dx < sheet.cell_width(layout),
        0 <= dy < sheet.cell_height(layout),
    ensures
        ({
            let cell = if right {
                layout.twin_home(sheet, i)
            } else {
                layout.home(sheet, i)
            };
            sheet_of(sheet, layout, mode, fits, lines, mark).at(cell.x + dx, cell.y + dy) == toned(
                fits[i],
                mode,
            ).at(dx, dy)
        }),
{
    let cell = if right {
        layout.twin_home(sheet, i)
    } else {
        layout.home(sheet, i)
    };
    lemma_cell_inside(sheet, layout, layout.row_of(i), layout.column_of(i));
    if layout.spec_twin() {
        lemma_cell_inside(sheet, layout, i, 1);
    }
    let blank = Bitmap::filled(sheet.width(), sheet.height(), mode.spec_background());
    assert(blank.wf());
    let photos = placed(blank, sheet, layout, fits);
    lemma_placed_frame(blank, sheet, layout, fits);
    lemma_placed_shows(blank, sheet, layout, fits, i, right, dx, dy);
    lemma_toned_idempotent(photos, mode);
    lemma_branded_frame(toned(photos, mode), sheet, layout, mode, lines, mark);
    assert(toned(photos, mode).contains(cell.x + dx, cell.y + dy));
    assert(fits[i].wf());
    assert(fits[i].contains(dx, dy));
}

} // verus!
