//! Rasters: rectangular grids of RGBA pixels, and their mathematical model.

use vstd::prelude::*;
use vstd::arithmetic::div_mod::lemma_fundamental_div_mod_converse;
use crate::error::PlacementFault;
use crate::pixel::{blend_of, gray_of, lemma_gray_idempotent, Pixel};

verus! {

/// The mathematical model of a raster: `height` rows of `width` pixels each.
pub struct Bitmap {
    pub width: int,
    pub height: int,
    pub rows: Seq<Seq<Pixel>>,
}

impl Bitmap {
    /// Every row is present and has the full width.
    pub open spec fn wf(self) -> bool {
        &&& 0 <= self.width
        &&& 0 <= self.height
        &&& self.rows.len() == self.height
        &&& forall|y: int| 0 <= y < self.height ==> (#[trigger] self.rows[y]).len() == self.width
    }

    /// Whether `(x, y)` names a pixel of the bitmap.
    pub open spec fn contains(self, x: int, y: int) -> bool {
        0 <= x < self.width && 0 <= y < self.height
    }

    /// The pixel in column `x` of row `y`.
    pub open spec fn at(self, x: int, y: int) -> Pixel {
        self.rows[y][x]
    }

    /// The bitmap of the given size whose pixel at `(x, y)` is `f(x, y)`.
    pub open spec fn build(width: int, height: int, f: spec_fn(int, int) -> Pixel) -> Bitmap {
        Bitmap {
            width,
            height,
            rows: Seq::new(height as nat, |y: int| Seq::new(width as nat, |x: int| f(x, y))),
        }
    }

    /// A bitmap of one colour.
    pub open spec fn filled(width: int, height: int, p: Pixel) -> Bitmap {
        Bitmap::build(width, height, |x: int, y: int| p)
    }

    /// The pixels in row-major order, four bytes each: red, green, blue,
    /// alpha.
    pub open spec fn rgba_bytes(self) -> Seq<u8> {
        Seq::new(
            (4 * (self.width * self.height)) as nat,
            |i: int| channel(self.at((i / 4) % self.width, (i / 4) / self.width), i % 4),
        )
    }

    /// The bitmap of the given size that `bytes` holds in row-major order,
    /// four bytes to the pixel.
    pub open spec fn of_rgba_bytes(width: int, height: int, bytes: Seq<u8>) -> Bitmap {
        Bitmap::build(
            width,
            height,
            |x: int, y: int|
                Pixel {
                    r: bytes[4 * (y * width + x)],
                    g: bytes[4 * (y * width + x) + 1],
                    b: bytes[4 * (y * width + x) + 2],
                    a: bytes[4 * (y * width + x) + 3],
                },
        )
    }

    /// Whether a `width` by `height` window with its corner at `(x0, y0)`
    /// lies inside the bitmap.
    pub open spec fn holds(self, x0: int, y0: int, width: int, height: int) -> bool {
        &&& 0 <= x0 && 0 <= width && x0 + width <= self.width
        &&& 0 <= y0 && 0 <= height && y0 + height <= self.height
    }

    /// The window of the given size whose corner is at `(x0, y0)`.
    pub open spec fn cropped(self, x0: int, y0: int, width: int, height: int) -> Bitmap {
        Bitmap::build(width, height, |x: int, y: int| self.at(x0 + x, y0 + y))
    }

    /// Every pixel replaced by its neutral tone.
    pub open spec fn grayed(self) -> Bitmap {
        Bitmap::build(self.width, self.height, |x: int, y: int| gray_of(self.at(x, y)))
    }

    /// `top` stamped onto this bitmap with its corner at `(x0, y0)`. Pixels
    /// of `top` that fall outside this bitmap are dropped; pixels of this
    /// bitmap that `top` does not cover stay as they are.
    pub open spec fn stamped(self, top: Bitmap, x0: int, y0: int, how: Stamp) -> Bitmap {
        Bitmap::build(
            self.width,
            self.height,
            |x: int, y: int|
                if top.contains(x - x0, y - y0) {
                    stamp_pixel(how, top.at(x - x0, y - y0), self.at(x, y))
                } else {
                    self.at(x, y)
                },
        )
    }

    /// `top` copied over this bitmap at `(x0, y0)`.
    pub open spec fn pasted(self, top: Bitmap, x0: int, y0: int) -> Bitmap {
        self.stamped(top, x0, y0, Stamp::Replace)
    }

    /// `top` alpha-blended over this bitmap at `(x0, y0)`.
    pub open spec fn overlaid(self, top: Bitmap, x0: int, y0: int) -> Bitmap {
        self.stamped(top, x0, y0, Stamp::Blend)
    }

    /// `color` blended over this bitmap at `(x0, y0)` through the alpha
    /// channel of `mask`.
    pub open spec fn inked(self, mask: Bitmap, x0: int, y0: int, color: Pixel) -> Bitmap {
        self.stamped(mask, x0, y0, Stamp::Ink(color))
    }
}

/// Channel `c` of a pixel, counted in the order red, green, blue, alpha.
pub open spec fn channel(p: Pixel, c: int) -> u8 {
    if c == 0 {
        p.r
    } else if c == 1 {
        p.g
    } else if c == 2 {
        p.b
    } else {
        p.a
    }
}

/// In a grid `width` wide and `height` high, the cell `(x, y)` has the
/// row-major index `y * width + x`, and that index names no other cell.
pub proof fn lemma_cell_index(width: int, height: int, x: int, y: int)
    requires
        0 <= x < width,
        0 <= y < height,
    ensures
        0 <= y * width + x < width * height,
        (y * width + x) / width == y,
        (y * width + x) % width == x,
{
    assert(0 <= y * width && (y + 1) * width <= height * width) by (nonlinear_arith)
        requires
            0 <= y < height,
            0 < width,
    ;
    assert((y + 1) * width == y * width + width) by (nonlinear_arith);
    assert(height * width == width * height) by (nonlinear_arith);
    lemma_fundamental_div_mod_converse(y * width + x, width, y, x);
}

/// Packing a bitmap into bytes and unpacking it gives the bitmap back.
pub proof fn lemma_unpack_packed(b: Bitmap)
    requires
        b.wf(),
    ensures
        Bitmap::of_rgba_bytes(b.width, b.height, b.rgba_bytes()) == b,
{
    let s = b.rgba_bytes();
    let u = Bitmap::of_rgba_bytes(b.width, b.height, s);
    assert forall|y: int| 0 <= y < b.height implies #[trigger] u.rows[y] =~= b.rows[y] by {
        assert forall|x: int| 0 <= x < b.width implies u.rows[y][x] == b.rows[y][x] by {
            lemma_cell_index(b.width, b.height, x, y);
            let k = y * b.width + x;
            assert(4 * k + 3 < 4 * (b.width * b.height));
            assert(s[4 * k] == channel(b.at(x, y), 0));
            assert(s[4 * k + 1] == channel(b.at(x, y), 1));
            assert(s[4 * k + 2] == channel(b.at(x, y), 2));
            assert(s[4 * k + 3] == channel(b.at(x, y), 3));
        }
    }
    assert(u.rows =~= b.rows);
}

/// The neutral tones of a bitmap are their own neutral tones, and taking
/// them changes neither the size nor any alpha value.
pub proof fn lemma_grayed_idempotent(b: Bitmap)
    requires
        b.wf(),
    ensures
        b.grayed().grayed() == b.grayed(),
        b.grayed().wf(),
        b.grayed().width == b.width,
        b.grayed().height == b.height,
        forall|x: int, y: int|
            b.contains(x, y) ==> #[trigger] b.grayed().at(x, y).a == b.at(x, y).a,
        forall|x: int, y: int|
            b.contains(x, y) ==> {
                let p = #[trigger] b.grayed().at(x, y);
                p.r == p.g && p.g == p.b
            },
{
    let g = b.grayed();
    assert forall|y: int| 0 <= y < b.height implies #[trigger] g.grayed().rows[y] =~= g.rows[y] by {
        assert forall|x: int| 0 <= x < b.width implies g.grayed().rows[y][x] == g.rows[y][x] by {
            lemma_gray_idempotent(b.at(x, y));
        }
    }
    assert(g.grayed().rows =~= g.rows);
}

/// How the pixels of a stamp meet the pixels beneath them.
#[derive(Clone, Copy, Debug)]
pub enum Stamp {
    /// The stamp's pixel replaces the one beneath.
    Replace,
    /// The stamp's pixel is blended over the one beneath by its own alpha.
    Blend,
    /// The given colour is blended over the pixel beneath; the stamp's alpha
    /// channel says how strongly.
    Ink(Pixel),
}

/// What a stamped pixel becomes.
pub open spec fn stamp_pixel(how: Stamp, top: Pixel, under: Pixel) -> Pixel {
    match how {
        Stamp::Replace => top,
        Stamp::Blend => blend_of(top, under),
        Stamp::Ink(color) => blend_of(
            Pixel { r: color.r, g: color.g, b: color.b, a: top.a },
            under,
        ),
    }
}

/// A stamp changes the size of no bitmap and keeps it well formed. Pixels of
/// the stamp whose place lies outside the bitmap are skipped; every pixel of
/// the bitmap that the stamp does not cover stays as it was, in whatever row
/// or column it lies, and every pixel that it covers meets the stamp's pixel
/// for that place.
pub proof fn lemma_stamped_frame(b: Bitmap, top: Bitmap, x0: int, y0: int, how: Stamp)
    requires
        b.wf(),
    ensures
        b.stamped(top, x0, y0, how).wf(),
        b.stamped(top, x0, y0, how).width == b.width,
        b.stamped(top, x0, y0, how).height == b.height,
        forall|x: int, y: int|
            b.contains(x, y) && !top.contains(x - x0, y - y0) ==> #[trigger] b.stamped(
                top,
                x0,
                y0,
                how,
            ).at(x, y) == b.at(x, y),
        forall|x: int, y: int|
            b.contains(x, y) && top.contains(x - x0, y - y0) ==> #[trigger] b.stamped(
                top,
                x0,
                y0,
                how,
            ).at(x, y) == stamp_pixel(how, top.at(x - x0, y - y0), b.at(x, y)),
{
}

/// A stamp that lies wholly outside a bitmap leaves it unchanged.
pub proof fn lemma_stamped_outside(b: Bitmap, top: Bitmap, x0: int, y0: int, how: Stamp)
    requires
        b.wf(),
        x0 >= b.width || y0 >= b.height || x0 + top.width <= 0 || y0 + top.height <= 0,
    ensures
        b.stamped(top, x0, y0, how) == b,
{
    let s = b.stamped(top, x0, y0, how);
    assert forall|y: int| 0 <= y < b.height implies #[trigger] s.rows[y] =~= b.rows[y] by {}
    assert(s.rows =~= b.rows);
}

fn stamp_one(how: Stamp, top: Pixel, under: Pixel) -> (out: Pixel)
    ensures
        out == stamp_pixel(how, top, under),
{
    match how {
        Stamp::Replace => top,
        Stamp::Blend => top.over(under),
        Stamp::Ink(color) => Pixel { r: color.r, g: color.g, b: color.b, a: top.a }.over(under),
    }
}

/// A rectangular grid of RGBA pixels.
pub struct Raster {
    width: u32,
    height: u32,
    rows: Vec<Vec<Pixel>>,
}

impl View for Raster {
    type V = Bitmap;

    closed spec fn view(&self) -> Bitmap {
        Bitmap {
            width: self.width as int,
            height: self.height as int,
            rows: Seq::new(self.rows@.len(), |y: int| self.rows@[y]@),
        }
    }
}

impl Raster {
    /// Every raster is well formed: it holds `height` rows of `width` pixels.
    #[verifier::type_invariant]
    pub open spec fn inv(self) -> bool {
        self@.wf() && self@.width <= u32::MAX && self@.height <= u32::MAX
    }

    /// Relates the stored rows to the model.
    proof fn lemma_rows(&self)
        requires
            self@.wf(),
        ensures
            self.rows@.len() == self.height,
            forall|y: int| 0 <= y < self.height ==> (#[trigger] self.rows@[y])@.len() == self.width,
            forall|y: int| 0 <= y < self.height ==> #[trigger] self@.rows[y] == self.rows@[y]@,
    {
        assert forall|y: int| 0 <= y < self.height implies (#[trigger] self.rows@[y])@.len()
            == self.width by {
            assert(self@.rows[y] == self.rows@[y]@);
        }
    }

    /// A raster of the given size with every pixel set to `p`.
    pub fn filled(width: u32, height: u32, p: Pixel) -> (out: Raster)
        ensures
            out@ == Bitmap::filled(width as int, height as int, p),
            out@.wf(),
    {
        let mut rows: Vec<Vec<Pixel>> = Vec::new();
        let mut y: u32 = 0;
        while y < height
            invariant
                y <= height,
                rows@.len() == y,
                forall|j: int|
                    0 <= j < y ==> (#[trigger] rows@[j])@ =~= Seq::new(width as nat, |x: int| p),
            decreases height - y,
        {
            let mut row: Vec<Pixel> = Vec::new();
            let mut x: u32 = 0;
            while x < width
                invariant
                    x <= width,
                    row@.len() == x,
                    forall|i: int| 0 <= i < x ==> row@[i] == p,
                decreases width - x,
            {
                row.push(p);
                x = x + 1;
            }
            assert(row@ =~= Seq::new(width as nat, |x: int| p));
            rows.push(row);
            y = y + 1;
        }
        let out = Raster { width, height, rows };
        assert(out@.rows =~~= Bitmap::filled(width as int, height as int, p).rows);
        out
    }

    /// Width in pixels.
    pub fn width(&self) -> (w: u32)
        ensures
            w == self@.width,
    {
        self.width
    }

    /// Height in pixels.
    pub fn height(&self) -> (h: u32)
        ensures
            h == self@.height,
    {
        self.height
    }

    /// A raster without pixels.
    pub fn empty() -> (out: Raster)
        ensures
            out@ == Bitmap::filled(0, 0, Pixel { r: 0, g: 0, b: 0, a: 0 }),
    {
        let out = Raster { width: 0, height: 0, rows: Vec::new() };
        assert(out@.rows =~~= Bitmap::filled(0, 0, Pixel { r: 0, g: 0, b: 0, a: 0 }).rows);
        out
    }

    /// Stamps `top` onto this raster with its corner at `(x0, y0)`. Whatever
    /// part of `top` falls outside the raster is skipped.
    pub fn stamp(&mut self, top: &Raster, x0: i64, y0: i64, how: Stamp)
        ensures
            final(self)@ == old(self)@.stamped(top@, x0 as int, y0 as int, how),
    {
        proof {
            use_type_invariant(&*self);
            use_type_invariant(top);
            self.lemma_rows();
            top.lemma_rows();
        }
        let ghost before = self@;
        let ghost target = before.stamped(top@, x0 as int, y0 as int, how);
        let mut taken = Raster::empty();
        core::mem::swap(self, &mut taken);
        let Raster { width, height, rows } = taken;
        let mut rows = rows;
        let mut y: u32 = 0;
        while y < height
            invariant
                y <= height,
                width == before.width,
                height == before.height,
                before.wf(),
                top@.wf(),
                rows@.len() == height,
                forall|j: int| 0 <= j < height ==> (#[trigger] rows@[j])@.len() == width,
                top.rows@.len() == top.height,
                forall|j: int| 0 <= j < top.height ==> (#[trigger] top.rows@[j])@ == top@.rows[j],
                target == before.stamped(top@, x0 as int, y0 as int, how),
                forall|j: int| 0 <= j < y ==> (#[trigger] rows@[j])@ == target.rows[j],
                forall|j: int| y <= j < height ==> (#[trigger] rows@[j])@ == before.rows[j],
            decreases height - y,
        {
            let ty: i128 = y as i128 - y0 as i128;
            if 0 <= ty && ty < top.height as i128 {
                let mut row: Vec<Pixel> = Vec::new();
                let mut x: u32 = 0;
                while x < width
                    invariant
                        x <= width,
                        y < height,
                        ty == y - y0,
                        0 <= ty < top.height,
                        width == before.width,
                        height == before.height,
                        before.wf(),
                        top@.wf(),
                        rows@.len() == height,
                        rows@[y as int]@ == before.rows[y as int],
                        top.rows@.len() == top.height,
                        top.rows@[ty as int]@ == top@.rows[ty as int],
                        target == before.stamped(top@, x0 as int, y0 as int, how),
                        row@.len() == x,
                        forall|i: int| 0 <= i < x ==> row@[i] == target.at(i, y as int),
                    decreases width - x,
                {
                    let under = rows[y as usize][x as usize];
                    let tx: i128 = x as i128 - x0 as i128;
                    let p = if 0 <= tx && tx < top.width as i128 {
                        stamp_one(how, top.rows[ty as usize][tx as usize], under)
                    } else {
                        under
                    };
                    row.push(p);
                    x = x + 1;
                }
                assert(row@ =~= target.rows[y as int]);
                rows.set(y as usize, row);
            } else {
                assert(before.rows[y as int] =~= target.rows[y as int]);
            }
            y = y + 1;
        }
        let out = Raster { width, height, rows };
        assert(out@.rows =~= target.rows);
        *self = out;
    }

    /// Copies `top` onto this raster with its corner at `(x, y)`. A copy that
    /// would reach past an edge is refused and leaves the raster as it was.
    pub fn paste(&mut self, top: &Raster, x: u32, y: u32) -> (out: Result<(), PlacementFault>)
        ensures
            out is Ok <==> old(self)@.holds(x as int, y as int, top@.width, top@.height),
            out is Ok ==> final(self)@ == old(self)@.pasted(top@, x as int, y as int),
            out is Err ==> final(self)@ == old(self)@ && out == Err::<(), PlacementFault>(
                PlacementFault::OutsideCanvas,
            ),
    {
        proof {
            use_type_invariant(&*self);
            use_type_invariant(top);
        }
        if x as u64 + top.width as u64 > self.width as u64 || y as u64 + top.height as u64
            > self.height as u64 {
            return Err(PlacementFault::OutsideCanvas);
        }
        self.stamp(top, x as i64, y as i64, Stamp::Replace);
        Ok(())
    }

    /// Alpha-blends `top` over this raster with its corner at `(x, y)`.
    /// Pixels of `top` that fall outside the raster are skipped.
    pub fn overlay(&mut self, top: &Raster, x: i64, y: i64)
        ensures
            final(self)@ == old(self)@.overlaid(top@, x as int, y as int),
    {
        self.stamp(top, x, y, Stamp::Blend);
    }

    /// Blends `color` over this raster through the alpha channel of `mask`,
    /// whose corner is put at `(x, y)`. Pixels of `mask` that fall outside
    /// the raster are skipped.
    pub fn ink(&mut self, mask: &Raster, x: i64, y: i64, color: Pixel)
        ensures
            final(self)@ == old(self)@.inked(mask@, x as int, y as int, color),
    {
        self.stamp(mask, x, y, Stamp::Ink(color));
    }

    /// The window of the given size whose corner is at `(x, y)`, or `None`
    /// where the window does not lie inside the raster.
    pub fn crop(&self, x: u32, y: u32, width: u32, height: u32) -> (out: Option<Raster>)
        ensures
            out is Some <==> self@.holds(x as int, y as int, width as int, height as int),
            out matches Some(r) ==> r@ == self@.cropped(
                x as int,
                y as int,
                width as int,
                height as int,
            ),
    {
        proof {
            use_type_invariant(self);
            self.lemma_rows();
        }
        if x as u64 + width as u64 > self.width as u64 || y as u64 + height as u64
            > self.height as u64 {
            return None;
        }
        let ghost target = self@.cropped(x as int, y as int, width as int, height as int);
        let mut rows: Vec<Vec<Pixel>> = Vec::new();
        let mut j: u32 = 0;
        while j < height
            invariant
                j <= height,
                self@.wf(),
                self@.holds(x as int, y as int, width as int, height as int),
                self.rows@.len() == self.height,
                forall|k: int|
                    0 <= k < self.height ==> (#[trigger] self.rows@[k])@ == self@.rows[k],
                target == self@.cropped(x as int, y as int, width as int, height as int),
                rows@.len() == j,
                forall|k: int| 0 <= k < j ==> (#[trigger] rows@[k])@ == target.rows[k],
            decreases height - j,
        {
            let mut row: Vec<Pixel> = Vec::new();
            let mut i: u32 = 0;
            while i < width
                invariant
                    i <= width,
                    j < height,
                    self@.wf(),
                    self@.holds(x as int, y as int, width as int, height as int),
                    self.rows@.len() == self.height,
                    self.rows@[y + j]@ == self@.rows[y + j],
                    target == self@.cropped(x as int, y as int, width as int, height as int),
                    row@.len() == i,
                    forall|k: int| 0 <= k < i ==> row@[k] == target.at(k, j as int),
                decreases width - i,
            {
                row.push(self.rows[(y + j) as usize][(x + i) as usize]);
                i = i + 1;
            }
            assert(row@ =~= target.rows[j as int]);
            rows.push(row);
            j = j + 1;
        }
        let out = Raster { width, height, rows };
        assert(out@.rows =~= target.rows);
        Some(out)
    }

    /// Replaces every pixel by its neutral tone; alpha is kept.
    pub fn to_gray(&mut self)
        ensures
            final(self)@ == old(self)@.grayed(),
    {
        proof {
            use_type_invariant(&*self);
            self.lemma_rows();
        }
        let ghost before = self@;
        let ghost target = before.grayed();
        let mut taken = Raster::empty();
        core::mem::swap(self, &mut taken);
        let Raster { width, height, rows } = taken;
        let mut rows = rows;
        let mut y: u32 = 0;
        while y < height
            invariant
                y <= height,
                width == before.width,
                height == before.height,
                before.wf(),
                rows@.len() == height,
                target == before.grayed(),
                forall|j: int| 0 <= j < y ==> (#[trigger] rows@[j])@ == target.rows[j],
                forall|j: int| y <= j < height ==> (#[trigger] rows@[j])@ == before.rows[j],
            decreases height - y,
        {
            let mut row: Vec<Pixel> = Vec::new();
            let mut x: u32 = 0;
            while x < width
                invariant
                    x <= width,
                    y < height,
                    width == before.width,
                    height == before.height,
                    before.wf(),
                    rows@.len() == height,
                    rows@[y as int]@ == before.rows[y as int],
                    target == before.grayed(),
                    row@.len() == x,
                    forall|i: int| 0 <= i < x ==> row@[i] == target.at(i, y as int),
                decreases width - x,
            {
                row.push(rows[y as usize][x as usize].to_gray());
                x = x + 1;
            }
            assert(row@ =~= target.rows[y as int]);
            rows.set(y as usize, row);
            y = y + 1;
        }
        let out = Raster { width, height, rows };
        assert(out@.rows =~= target.rows);
        *self = out;
    }

    /// The pixels as bytes in row-major order, four to the pixel (red,
    /// green, blue, alpha), or `None` where that many bytes cannot be
    /// addressed.
    pub fn to_rgba_bytes(&self) -> (out: Option<Vec<u8>>)
        ensures
            out is Some <==> 4 * (self@.width * self@.height) <= usize::MAX,
            out matches Some(bytes) ==> bytes@ == self@.rgba_bytes(),
    {
        proof {
            use_type_invariant(self);
            self.lemma_rows();
        }
        let width = self.width;
        let height = self.height;
        assert(width * height <= 0xffff_ffff * 0xffff_ffff) by (nonlinear_arith)
            requires
                0 <= width <= 0xffff_ffff,
                0 <= height <= 0xffff_ffff,
        ;
        let total: u128 = 4 * (width as u128 * height as u128);
        if total > usize::MAX as u128 {
            return None;
        }
        let ghost target = self@.rgba_bytes();
        let mut out: Vec<u8> = Vec::new();
        let mut y: u32 = 0;
        while y < height
            invariant
                y <= height,
                width == self.width,
                height == self.height,
                self@.wf(),
                self.rows@.len() == height,
                forall|j: int| 0 <= j < height ==> (#[trigger] self.rows@[j])@ == self@.rows[j],
                target == self@.rgba_bytes(),
                out@.len() == 4 * (y * width),
                forall|i: int| 0 <= i < out@.len() ==> out@[i] == target[i],
            decreases height - y,
        {
            let mut x: u32 = 0;
            while x < width
                invariant
                    x <= width,
                    y < height,
                    width == self.width,
                    height == self.height,
                    self@.wf(),
                    self.rows@.len() == height,
                    self.rows@[y as int]@ == self@.rows[y as int],
                    target == self@.rgba_bytes(),
                    out@.len() == 4 * (y * width + x),
                    forall|i: int| 0 <= i < out@.len() ==> out@[i] == target[i],
                decreases width - x,
            {
                let p = self.rows[y as usize][x as usize];
                proof {
                    lemma_cell_index(width as int, height as int, x as int, y as int);
                    let k = y * width + x;
                    assert(target[4 * k] == channel(p, 0));
                    assert(target[4 * k + 1] == channel(p, 1));
                    assert(target[4 * k + 2] == channel(p, 2));
                    assert(target[4 * k + 3] == channel(p, 3));
                }
                out.push(p.r);
                out.push(p.g);
                out.push(p.b);
                out.push(p.a);
                x = x + 1;
            }
            assert((y + 1) * width == y * width + width) by (nonlinear_arith);
            y = y + 1;
        }
        assert(height * width == width * height) by (nonlinear_arith);
        assert(out@ =~= target);
        Some(out)
    }

    /// The raster of the given size that `bytes` holds in row-major order,
    /// four bytes to the pixel, or `None` where `bytes` has another length.
    pub fn from_rgba_bytes(width: u32, height: u32, bytes: &Vec<u8>) -> (out: Option<Raster>)
        ensures
            out is Some <==> bytes@.len() == 4 * (width * height),
            out matches Some(r) ==> r@ == Bitmap::of_rgba_bytes(
                width as int,
                height as int,
                bytes@,
            ),
    {
        assert(width * height <= 0xffff_ffff * 0xffff_ffff) by (nonlinear_arith)
            requires
                0 <= width <= 0xffff_ffff,
                0 <= height <= 0xffff_ffff,
        ;
        let total: u128 = 4 * (width as u128 * height as u128);
        if bytes.len() as u128 != total {
            return None;
        }
        let ghost target = Bitmap::of_rgba_bytes(width as int, height as int, bytes@);
        let mut rows: Vec<Vec<Pixel>> = Vec::new();
        let mut at: usize = 0;
        let mut y: u32 = 0;
        while y < height
            invariant
                y <= height,
                bytes@.len() == 4 * (width * height),
                bytes@.len() <= usize::MAX,
                target == Bitmap::of_rgba_bytes(width as int, height as int, bytes@),
                at == 4 * (y * width),
                rows@.len() == y,
                forall|j: int| 0 <= j < y ==> (#[trigger] rows@[j])@ == target.rows[j],
            decreases height - y,
        {
            let mut row: Vec<Pixel> = Vec::new();
            let mut x: u32 = 0;
            while x < width
                invariant
                    x <= width,
                    y < height,
                    bytes@.len() == 4 * (width * height),
                    bytes@.len() <= usize::MAX,
                    target == Bitmap::of_rgba_bytes(width as int, height as int, bytes@),
                    at == 4 * (y * width + x),
                    row@.len() == x,
                    forall|i: int| 0 <= i < x ==> row@[i] == target.at(i, y as int),
                decreases width - x,
            {
                proof {
                    lemma_cell_index(width as int, height as int, x as int, y as int);
                }
                row.push(
                    Pixel { r: bytes[at], g: bytes[at + 1], b: bytes[at + 2], a: bytes[at + 3] },
                );
                at = at + 4;
                x = x + 1;
            }
            assert(row@ =~= target.rows[y as int]);
            assert((y + 1) * width == y * width + width) by (nonlinear_arith);
            rows.push(row);
            y = y + 1;
        }
        let out = Raster { width, height, rows };
        assert(out@.rows =~= target.rows);
        Some(out)
    }

    /// The pixel at `(x, y)`, if the raster has one there.
    pub fn get(&self, x: u32, y: u32) -> (out: Option<Pixel>)
        ensures
            out == if self@.contains(x as int, y as int) {
                Some(self@.at(x as int, y as int))
            } else {
                None
            },
    {
        proof {
            use_type_invariant(self);
            self.lemma_rows();
        }
        if x < self.width && y < self.height {
            Some(self.rows[y as usize][x as usize])
        } else {
            None
        }
    }
}

} // verus!
