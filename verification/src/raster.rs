//! Pixel buffers: immutable decoded input images and the mutable output
//! canvas, with the bulk paste operation the compositor builds on.
//!
//! A pixel is an opaque packed `u32`; this crate moves pixels between
//! buffers and never interprets their channels.

use vstd::prelude::*;
use vstd::pervasive::VecAdditionalExecFns;

verus! {

/// Coordinates inside a `w`-wide, `h`-high buffer map to a flat index that
/// stays inside the buffer.
pub(crate) proof fn lemma_flat_in_range(w: int, h: int, x: int, y: int)
    by (nonlinear_arith)
    requires
        0 <= x < w,
        0 <= y < h,
    ensures
        0 <= y * w + x < w * h,
{
}

/// Distinct coordinates inside a `w`-wide buffer map to distinct flat
/// indices.
pub(crate) proof fn lemma_flat_injective(w: int, x1: int, y1: int, x2: int, y2: int)
    by (nonlinear_arith)
    requires
        0 <= x1 < w,
        0 <= x2 < w,
        0 <= y1,
        0 <= y2,
        y1 * w + x1 == y2 * w + x2,
    ensures
        x1 == x2,
        y1 == y2,
{
}

/// An immutable decoded raster: `width * height` packed pixels in row-major
/// order.
pub struct Image {
    width: u32,
    height: u32,
    pixels: Vec<u32>,
}

impl Image {
    /// The pixel buffer holds exactly one entry per coordinate.
    pub open spec fn wf(&self) -> bool {
        self.spec_pixels().len() == self.spec_width() as int * self.spec_height() as int
    }

    pub closed spec fn spec_width(&self) -> u32 {
        self.width
    }

    pub closed spec fn spec_height(&self) -> u32 {
        self.height
    }

    /// The whole buffer, row-major.
    pub closed spec fn spec_pixels(&self) -> Seq<u32> {
        self.pixels@
    }

    /// The pixel at column `x` of row `y`.
    pub open spec fn spec_pixel(&self, x: int, y: int) -> u32 {
        self.spec_pixels()[y * self.spec_width() as int + x]
    }

    /// Build an image from a row-major buffer. Returns `None` exactly when
    /// the buffer does not hold `width * height` pixels.
    pub fn new(width: u32, height: u32, pixels: Vec<u32>) -> (r: Option<Image>)
        ensures
            r is Some <==> pixels@.len() == width as int * height as int,
            r is Some ==> {
                let img = r->Some_0;
                &&& img.wf()
                &&& img.spec_width() == width
                &&& img.spec_height() == height
                &&& img.spec_pixels() == pixels@
            },
    {
        let supplied: usize = pixels.len();
        match (width as usize).checked_mul(height as usize) {
            Some(len) => {
                if supplied == len {
                    Some(Image { width, height, pixels })
                } else {
                    None
                }
            },
            None => {
                // The product exceeds the address space, so no buffer can
                // have that many entries.
                None
            },
        }
    }

    pub fn width(&self) -> (w: u32)
        ensures
            w == self.spec_width(),
    {
        self.width
    }

    pub fn height(&self) -> (h: u32)
        ensures
            h == self.spec_height(),
    {
        self.height
    }

    /// Read the pixel at column `x` of row `y`.
    pub fn pixel(&self, x: u32, y: u32) -> (p: u32)
        requires
            self.wf(),
            x < self.spec_width(),
            y < self.spec_height(),
        ensures
            p == self.spec_pixel(x as int, y as int),
    {
        let total: usize = self.pixels.len();
        proof {
            lemma_flat_in_range(self.width as int, self.height as int, x as int, y as int);
        }
        self.pixels[(y as usize) * (self.width as usize) + (x as usize)]
    }
}

/// The value a paste leaves at `(x, y)`: the image's pixel where the image
/// placed at `(left, top)` covers the coordinate, the base canvas's pixel
/// everywhere else.
pub open spec fn pasted_pixel(base: Canvas, img: Image, left: int, top: int, x: int, y: int) -> u32 {
    if left <= x < left + img.spec_width() && top <= y < top + img.spec_height() {
        img.spec_pixel(x - left, y - top)
    } else {
        base.spec_pixel(x, y)
    }
}

/// The same, with only the first `rows_done` rows of the image applied:
/// the intermediate states of a paste.
spec fn partly_pasted_pixel(
    base: Canvas,
    img: Image,
    left: int,
    top: int,
    rows_done: int,
    x: int,
    y: int,
) -> u32 {
    if left <= x < left + img.spec_width() && top <= y < top + rows_done {
        img.spec_pixel(x - left, y - top)
    } else {
        base.spec_pixel(x, y)
    }
}

/// The mutable output sheet: `width * height` packed pixels in row-major
/// order, born fully background and filled by pastes.
pub struct Canvas {
    width: u32,
    height: u32,
    pixels: Vec<u32>,
}

/// The background every canvas starts out as: all channels zero, which in
/// an alpha-carrying pixel format is fully transparent.
pub const BACKGROUND: u32 = 0;

impl Canvas {
    /// The pixel buffer holds exactly one entry per coordinate.
    pub open spec fn wf(&self) -> bool {
        self.spec_pixels().len() == self.spec_width() as int * self.spec_height() as int
    }

    pub closed spec fn spec_width(&self) -> u32 {
        self.width
    }

    pub closed spec fn spec_height(&self) -> u32 {
        self.height
    }

    /// The whole buffer, row-major.
    pub closed spec fn spec_pixels(&self) -> Seq<u32> {
        self.pixels@
    }

    /// The pixel at column `x` of row `y`.
    pub open spec fn spec_pixel(&self, x: int, y: int) -> u32 {
        self.spec_pixels()[y * self.spec_width() as int + x]
    }

    /// Allocate a canvas with every pixel set to `BACKGROUND`.
    pub fn new(width: u32, height: u32) -> (c: Canvas)
        requires
            width as int * height as int <= usize::MAX as int,
        ensures
            c.wf(),
            c.spec_width() == width,
            c.spec_height() == height,
            forall|i: int| 0 <= i < c.spec_pixels().len() ==> c.spec_pixels()[i] == BACKGROUND,
    {
        let len: usize = (width as usize) * (height as usize);
        let mut pixels: Vec<u32> = Vec::new();
        let mut i: usize = 0;
        while i < len
            invariant
                i <= len,
                pixels@.len() == i,
                forall|j: int| 0 <= j < i ==> pixels@[j] == BACKGROUND,
            decreases len - i,
        {
            pixels.push(BACKGROUND);
            i = i + 1;
        }
        Canvas { width, height, pixels }
    }

    pub fn width(&self) -> (w: u32)
        ensures
            w == self.spec_width(),
    {
        self.width
    }

    pub fn height(&self) -> (h: u32)
        ensures
            h == self.spec_height(),
    {
        self.height
    }

    /// Read the pixel at column `x` of row `y`.
    pub fn pixel(&self, x: u32, y: u32) -> (p: u32)
        requires
            self.wf(),
            x < self.spec_width(),
            y < self.spec_height(),
        ensures
            p == self.spec_pixel(x as int, y as int),
    {
        let total: usize = self.pixels.len();
        proof {
            lemma_flat_in_range(self.width as int, self.height as int, x as int, y as int);
        }
        self.pixels[(y as usize) * (self.width as usize) + (x as usize)]
    }

    /// Hand the finished sheet over as its raw row-major buffer.
    pub fn into_pixels(self) -> (v: Vec<u32>)
        ensures
            v@ == self.spec_pixels(),
    {
        self.pixels
    }

    /// Overwrite the single pixel at `(x, y)`.
    fn set_pixel(&mut self, x: u32, y: u32, value: u32)
        requires
            old(self).wf(),
            x < old(self).spec_width(),
            y < old(self).spec_height(),
        ensures
            final(self).wf(),
            final(self).spec_width() == old(self).spec_width(),
            final(self).spec_height() == old(self).spec_height(),
            final(self).spec_pixel(x as int, y as int) == value,
            forall|i: int, j: int|
                0 <= i < final(self).spec_width() && 0 <= j < final(self).spec_height() && !(i
                    == x as int && j == y as int) ==> final(self).spec_pixel(i, j) == old(
                    self,
                ).spec_pixel(i, j),
    {
        let total: usize = self.pixels.len();
        proof {
            lemma_flat_in_range(self.width as int, self.height as int, x as int, y as int);
        }
        let idx: usize = (y as usize) * (self.width as usize) + (x as usize);
        self.pixels.set(idx, value);
        proof {
            assert forall|i: int, j: int|
                0 <= i < self.spec_width() && 0 <= j < self.spec_height() && !(i == x as int && j
                    == y as int) implies self.spec_pixel(i, j) == old(self).spec_pixel(i, j) by {
                lemma_flat_in_range(self.width as int, self.height as int, i, j);
                if j * self.width as int + i == y as int * self.width as int + x as int {
                    lemma_flat_injective(self.width as int, i, j, x as int, y as int);
                }
            }
        }
    }

    /// Copy `img` onto the canvas with its top-left corner at `(left, top)`,
    /// without scaling. Pixels that would land outside the canvas are
    /// silently dropped (clipped); clipping is never an error.
    pub fn paste(&mut self, img: &Image, left: u32, top: u32)
        requires
            old(self).wf(),
            img.wf(),
        ensures
            final(self).wf(),
            final(self).spec_width() == old(self).spec_width(),
            final(self).spec_height() == old(self).spec_height(),
            forall|x: int, y: int|
                0 <= x < final(self).spec_width() && 0 <= y < final(self).spec_height()
                    ==> #[trigger] final(self).spec_pixel(x, y) == pasted_pixel(
                    *old(self),
                    *img,
                    left as int,
                    top as int,
                    x,
                    y,
                ),
    {
        let mut dy: u32 = 0;
        while dy < img.height
            invariant
                old(self).wf(),
                img.wf(),
                self.wf(),
                self.spec_width() == old(self).spec_width(),
                self.spec_height() == old(self).spec_height(),
                dy <= img.spec_height(),
                forall|x: int, y: int|
                    0 <= x < self.spec_width() && 0 <= y < self.spec_height()
                        ==> #[trigger] self.spec_pixel(x, y) == partly_pasted_pixel(
                        *old(self),
                        *img,
                        left as int,
                        top as int,
                        dy as int,
                        x,
                        y,
                    ),
            decreases img.spec_height() - dy,
        {
            let cy: u64 = (top as u64) + (dy as u64);
            if cy < self.height as u64 {
                let mut dx: u32 = 0;
                while dx < img.width
                    invariant
                        old(self).wf(),
                        img.wf(),
                        self.wf(),
                        self.spec_width() == old(self).spec_width(),
                        self.spec_height() == old(self).spec_height(),
                        dy < img.spec_height(),
                        dx <= img.spec_width(),
                        cy == top as int + dy as int,
                        cy < self.spec_height(),
                        forall|x: int, y: int|
                            0 <= x < self.spec_width() && 0 <= y < self.spec_height()
                                ==> #[trigger] self.spec_pixel(x, y) == (if y == top as int
                                + dy as int && left <= x < left + dx as int {
                                img.spec_pixel(x - left as int, dy as int)
                            } else {
                                partly_pasted_pixel(
                                    *old(self),
                                    *img,
                                    left as int,
                                    top as int,
                                    dy as int,
                                    x,
                                    y,
                                )
                            }),
                    decreases img.spec_width() - dx,
                {
                    let cx: u64 = (left as u64) + (dx as u64);
                    if cx < self.width as u64 {
                        let value: u32 = img.pixel(dx, dy);
                        self.set_pixel(cx as u32, cy as u32, value);
                    }
                    dx = dx + 1;
                }
            }
            dy = dy + 1;
        }
    }
}

} // verus!
