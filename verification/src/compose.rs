//! The sheet compositor: compute the tile extent, allocate the canvas and
//! place every input image into its row-major cell.

use vstd::prelude::*;

use crate::grid::GridSpec;
use crate::raster::{lemma_flat_in_range, pasted_pixel, Canvas, Image, BACKGROUND};
use vstd::arithmetic::div_mod::{
    lemma_div_is_ordered, lemma_div_multiples_vanish, lemma_div_nonincreasing,
    lemma_div_pos_is_pos, lemma_fundamental_div_mod, lemma_fundamental_div_mod_converse,
    lemma_mod_division_less_than_divisor,
};
use vstd::arithmetic::mul::{lemma_mul_inequality, lemma_mul_is_commutative};

verus! {

/// The widest width over all images, each axis taken on its own; 0 when
/// there are no images.
pub open spec fn max_width(images: Seq<Image>) -> int
    decreases images.len(),
{
    if images.len() == 0 {
        0
    } else {
        let rest = max_width(images.drop_last());
        if images.last().spec_width() as int > rest {
            images.last().spec_width() as int
        } else {
            rest
        }
    }
}

/// The tallest height over all images; 0 when there are no images.
pub open spec fn max_height(images: Seq<Image>) -> int
    decreases images.len(),
{
    if images.len() == 0 {
        0
    } else {
        let rest = max_height(images.drop_last());
        if images.last().spec_height() as int > rest {
            images.last().spec_height() as int
        } else {
            rest
        }
    }
}

/// The column of the cell the `k`-th image is assigned to, row-major.
pub open spec fn cell_column(k: int, columns: int) -> int {
    k % columns
}

/// The row of the cell the `k`-th image is assigned to, row-major. It can
/// lie at or beyond the grid's row count when there are more images than
/// cells.
pub open spec fn cell_row(k: int, columns: int) -> int {
    k / columns
}

/// Whether the `k`-th image, placed flush top-left in its cell, covers the
/// sheet coordinate `(x, y)`.
pub open spec fn covers(
    img: Image,
    k: int,
    tile_w: int,
    tile_h: int,
    columns: int,
    x: int,
    y: int,
) -> bool {
    let left = cell_column(k, columns) * tile_w;
    let top = cell_row(k, columns) * tile_h;
    left <= x < left + img.spec_width() && top <= y < top + img.spec_height()
}

/// The sheet pixel at `(x, y)` once the first `n` images are placed: the
/// pixel of the last image among them that covers `(x, y)` — later pastes
/// overwrite earlier ones — or the background where none does.
pub open spec fn sheet_pixel(
    images: Seq<Image>,
    n: int,
    tile_w: int,
    tile_h: int,
    columns: int,
    x: int,
    y: int,
) -> u32
    decreases n,
{
    if n <= 0 {
        BACKGROUND
    } else if covers(images[n - 1], n - 1, tile_w, tile_h, columns, x, y) {
        images[n - 1].spec_pixel(
            x - cell_column(n - 1, columns) * tile_w,
            y - cell_row(n - 1, columns) * tile_h,
        )
    } else {
        sheet_pixel(images, n - 1, tile_w, tile_h, columns, x, y)
    }
}

/// What `compose` promises: the canvas is one tile per cell in size and
/// every one of its pixels is the row-major placement of all the images.
pub open spec fn is_composition(images: Seq<Image>, grid: GridSpec, c: Canvas) -> bool {
    let tile_w = max_width(images);
    let tile_h = max_height(images);
    &&& c.wf()
    &&& c.spec_width() == tile_w * grid.columns as int
    &&& c.spec_height() == tile_h * grid.rows as int
    &&& forall|x: int, y: int|
        0 <= x < c.spec_width() && 0 <= y < c.spec_height() ==> #[trigger] c.spec_pixel(x, y)
            == sheet_pixel(
            images,
            images.len() as int,
            tile_w,
            tile_h,
            grid.columns as int,
            x,
            y,
        )
}

/// The tile extent is an upper bound on every image's dimensions, and fits
/// the dimensions' machine type.
pub(crate) proof fn lemma_max_extent_bounds(images: Seq<Image>)
    ensures
        0 <= max_width(images) <= u32::MAX,
        0 <= max_height(images) <= u32::MAX,
        forall|k: int|
            0 <= k < images.len() ==> (#[trigger] images[k]).spec_width() <= max_width(images)
                && images[k].spec_height() <= max_height(images),
    decreases images.len(),
{
    if images.len() > 0 {
        lemma_max_extent_bounds(images.drop_last());
        assert forall|k: int|
            0 <= k < images.len() implies (#[trigger] images[k]).spec_width() <= max_width(images)
            && images[k].spec_height() <= max_height(images) by {
            if k < images.len() - 1 {
                assert(images.drop_last()[k] == images[k]);
            }
        }
    }
}

/// The maximum width and maximum height seen across the input images; each
/// axis is maximized independently, so the widest and the tallest input
/// both shape the tile even when they are different images.
pub struct TileExtent {
    pub max_width: u32,
    pub max_height: u32,
}

/// Measure the tile extent of a sequence of images.
pub fn tile_extent(images: &Vec<Image>) -> (t: TileExtent)
    ensures
        t.max_width == max_width(images@),
        t.max_height == max_height(images@),
{
    let mut w: u32 = 0;
    let mut h: u32 = 0;
    let mut i: usize = 0;
    while i < images.len()
        invariant
            i <= images@.len(),
            w == max_width(images@.take(i as int)),
            h == max_height(images@.take(i as int)),
        decreases images@.len() - i,
    {
        proof {
            assert(images@.take(i as int + 1).drop_last() =~= images@.take(i as int));
            assert(images@.take(i as int + 1).last() == images@[i as int]);
        }
        let iw = images[i].width();
        if iw > w {
            w = iw;
        }
        let ih = images[i].height();
        if ih > h {
            h = ih;
        }
        i = i + 1;
    }
    proof {
        assert(images@.take(images@.len() as int) =~= images@);
    }
    TileExtent { max_width: w, max_height: h }
}

/// Stepping the row-major cursor: advancing from image `k` to `k + 1`
/// either moves one cell right or wraps to the start of the next row.
proof fn lemma_row_major_step(k: int, c: int)
    requires
        0 <= k,
        1 <= c,
    ensures
        k % c + 1 == c ==> (k + 1) % c == 0 && (k + 1) / c == k / c + 1,
        k % c + 1 < c ==> (k + 1) % c == k % c + 1 && (k + 1) / c == k / c,
{
    lemma_fundamental_div_mod(k, c);
    lemma_mod_division_less_than_divisor(k, c);
    if k % c + 1 == c {
        assert(k + 1 == (k / c + 1) * c + 0) by (nonlinear_arith)
            requires
                k == c * (k / c) + k % c,
                k % c + 1 == c,
        ;
        lemma_fundamental_div_mod_converse(k + 1, c, k / c + 1, 0);
    } else {
        assert(k + 1 == (k / c) * c + (k % c + 1)) by (nonlinear_arith)
            requires
                k == c * (k / c) + k % c,
        ;
        lemma_fundamental_div_mod_converse(k + 1, c, k / c, k % c + 1);
    }
}

/// Assemble the sheet: allocate a background canvas of one tile per cell
/// and paste every image into its row-major cell, in input order.
///
/// Images beyond the grid's cells land on rows at or past `grid.rows`;
/// their pixels fall outside the canvas and are silently clipped, never an
/// error. An image larger than its tile overflows into neighbouring cells
/// and may be overdrawn by later pastes. Compositing itself cannot fail.
pub fn compose(images: &Vec<Image>, grid: &GridSpec) -> (c: Canvas)
    requires
        grid.wf(),
        forall|k: int| 0 <= k < images@.len() ==> (#[trigger] images@[k]).wf(),
        max_width(images@) * grid.columns as int <= u32::MAX,
        max_height(images@) * grid.rows as int <= u32::MAX,
        (max_width(images@) * grid.columns as int) * (max_height(images@) * grid.rows as int)
            <= usize::MAX,
    ensures
        is_composition(images@, *grid, c),
{
    let ghost tile_w: int = max_width(images@);
    let ghost tile_h: int = max_height(images@);
    let ghost cols: int = grid.columns as int;
    let t = tile_extent(images);
    proof {
        lemma_max_extent_bounds(images@);
    }
    let canvas_w: u32 = t.max_width * grid.columns;
    let canvas_h: u32 = t.max_height * grid.rows;
    let mut canvas = Canvas::new(canvas_w, canvas_h);
    proof {
        assert forall|x: int, y: int| 0 <= x < canvas_w && 0 <= y < canvas_h implies #[trigger] canvas.spec_pixel(
            x,
            y,
        ) == sheet_pixel(images@, 0, tile_w, tile_h, cols, x, y) by {
            lemma_flat_in_range(canvas_w as int, canvas_h as int, x, y);
            assert(canvas.spec_pixels()[y * canvas_w as int + x] == BACKGROUND);
            assert(sheet_pixel(images@, 0, tile_w, tile_h, cols, x, y) == BACKGROUND);
        }
    }
    let n: usize = images.len();
    let mut k: usize = 0;
    let mut col: u32 = 0;
    let mut row: u64 = 0;
    while k < n
        invariant
            grid.wf(),
            forall|j: int| 0 <= j < images@.len() ==> (#[trigger] images@[j]).wf(),
            tile_w == max_width(images@),
            tile_h == max_height(images@),
            0 <= tile_w <= u32::MAX,
            0 <= tile_h <= u32::MAX,
            cols == grid.columns as int,
            forall|j: int|
                0 <= j < images@.len() ==> (#[trigger] images@[j]).spec_width() <= tile_w
                    && images@[j].spec_height() <= tile_h,
            t.max_width == tile_w,
            t.max_height == tile_h,
            canvas_w == tile_w * cols,
            canvas_h == tile_h * grid.rows as int,
            canvas.wf(),
            canvas.spec_width() == canvas_w,
            canvas.spec_height() == canvas_h,
            n == images@.len(),
            k <= n,
            col == cell_column(k as int, cols),
            row == cell_row(k as int, cols),
            forall|x: int, y: int|
                0 <= x < canvas_w && 0 <= y < canvas_h ==> #[trigger] canvas.spec_pixel(x, y)
                    == sheet_pixel(images@, k as int, tile_w, tile_h, cols, x, y),
        decreases n - k,
    {
        proof {
            lemma_mod_division_less_than_divisor(k as int, cols);
            lemma_div_pos_is_pos(k as int, cols);
            lemma_div_nonincreasing(k as int, cols);
        }
        let img = &images[k];
        if row < grid.rows as u64 {
            // The cell starts on the canvas: paste the image there.
            proof {
                lemma_mul_inequality(col as int, cols, tile_w);
                lemma_mul_is_commutative(tile_w, cols);
                lemma_mul_inequality(row as int, grid.rows as int, tile_h);
                lemma_mul_is_commutative(tile_h, grid.rows as int);
            }
            let left: u32 = col * t.max_width;
            let top: u32 = (row as u32) * t.max_height;
            let ghost before: Canvas = canvas;
            canvas.paste(img, left, top);
            proof {
                assert forall|x: int, y: int|
                    0 <= x < canvas_w && 0 <= y < canvas_h implies #[trigger] canvas.spec_pixel(
                    x,
                    y,
                ) == sheet_pixel(images@, k as int + 1, tile_w, tile_h, cols, x, y) by {
                    assert(canvas.spec_pixel(x, y) == pasted_pixel(
                        before,
                        images@[k as int],
                        left as int,
                        top as int,
                        x,
                        y,
                    ));
                }
            }
        } else {
            // The cell's row lies past the grid: every pixel of this image
            // would land below the canvas, so the paste is a whole-image
            // clip and the canvas is untouched.
            proof {
                lemma_mul_inequality(grid.rows as int, row as int, tile_h);
                lemma_mul_is_commutative(tile_h, grid.rows as int);
                assert forall|x: int, y: int|
                    0 <= x < canvas_w && 0 <= y < canvas_h implies #[trigger] canvas.spec_pixel(
                    x,
                    y,
                ) == sheet_pixel(images@, k as int + 1, tile_w, tile_h, cols, x, y) by {
                    assert(!covers(images@[k as int], k as int, tile_w, tile_h, cols, x, y));
                }
            }
        }
        proof {
            lemma_row_major_step(k as int, cols);
        }
        k = k + 1;
        col = col + 1;
        if col == grid.columns {
            col = 0;
            row = row + 1;
        }
    }
    proof {
        assert(is_composition(images@, *grid, canvas));
    }
    canvas
}

/// Placing images that cover `(x, y)` nowhere between positions `n` and `m`
/// leaves the sheet pixel at `(x, y)` as it stood after position `n`.
proof fn lemma_sheet_pixel_stable(
    images: Seq<Image>,
    n: int,
    m: int,
    tile_w: int,
    tile_h: int,
    columns: int,
    x: int,
    y: int,
)
    requires
        0 <= n <= m,
        forall|j: int| n <= j < m ==> !covers(#[trigger] images[j], j, tile_w, tile_h, columns, x, y),
    ensures
        sheet_pixel(images, m, tile_w, tile_h, columns, x, y) == sheet_pixel(
            images,
            n,
            tile_w,
            tile_h,
            columns,
            x,
            y,
        ),
    decreases m - n,
{
    if n < m {
        lemma_sheet_pixel_stable(images, n, m - 1, tile_w, tile_h, columns, x, y);
    }
}

/// Excess images are clipped whole: when the grid's cells are exhausted,
/// an image's cell row lies at or past `grid.rows`, so the image covers no
/// coordinate inside the canvas — its pixels are dropped, and the canvas
/// (whose height is `max_height * rows` however many images there are)
/// stays as it was.
pub proof fn lemma_excess_rows_clipped(images: Seq<Image>, grid: GridSpec, k: int, x: int, y: int)
    requires
        grid.wf(),
        grid.rows as int * grid.columns as int <= k,
        0 <= y < max_height(images) * grid.rows as int,
    ensures
        !covers(
            images[k],
            k,
            max_width(images),
            max_height(images),
            grid.columns as int,
            x,
            y,
        ),
{
    let c = grid.columns as int;
    let r = grid.rows as int;
    let tile_h = max_height(images);
    lemma_max_extent_bounds(images);
    lemma_mul_is_commutative(r, c);
    lemma_div_multiples_vanish(r, c);
    lemma_div_is_ordered(r * c, k, c);
    lemma_mul_inequality(r, k / c, tile_h);
    lemma_mul_is_commutative(tile_h, r);
}

/// All the images have size `(w, h)`, so the tile has too.
proof fn lemma_uniform_extent(images: Seq<Image>, w: int, h: int)
    requires
        images.len() >= 1,
        forall|j: int|
            0 <= j < images.len() ==> (#[trigger] images[j]).spec_width() == w && images[
                j
            ].spec_height() == h,
    ensures
        max_width(images) == w,
        max_height(images) == h,
    decreases images.len(),
{
    if images.len() > 1 {
        assert forall|j: int|
            0 <= j < images.drop_last().len() implies (#[trigger] images.drop_last()[j]).spec_width()
            == w && images.drop_last()[j].spec_height() == h by {
            assert(images.drop_last()[j] == images[j]);
        }
        lemma_uniform_extent(images.drop_last(), w, h);
    } else {
        assert(images.drop_last().len() == 0);
        assert(max_width(images.drop_last()) == 0);
        assert(max_height(images.drop_last()) == 0);
        assert(images.last() == images[0]);
    }
}

/// An interval of length `w` starting at multiple `a` of `w` is disjoint
/// from the one starting at a different multiple `b`.
proof fn lemma_distinct_cells_disjoint(a: int, b: int, w: int, x: int)
    requires
        a != b,
        0 <= a,
        0 <= b,
        1 <= w,
        a * w <= x < a * w + w,
    ensures
        !(b * w <= x < b * w + w),
{
    if b > a {
        lemma_mul_inequality(a + 1, b, w);
        assert((a + 1) * w == a * w + w) by (nonlinear_arith);
    } else {
        lemma_mul_inequality(b + 1, a, w);
        assert((b + 1) * w == b * w + w) by (nonlinear_arith);
    }
}

/// Uniformly sized images tile the sheet exactly: when every image has the
/// same size and image `k` has a cell inside the grid, each of its pixels
/// appears unaltered at its cell's position — no other image overdraws it.
pub proof fn lemma_uniform_placement(images: Seq<Image>, grid: GridSpec, k: int, dx: int, dy: int)
    requires
        grid.wf(),
        images.len() >= 1,
        forall|j: int|
            0 <= j < images.len() ==> (#[trigger] images[j]).spec_width() == images[0].spec_width()
                && images[j].spec_height() == images[0].spec_height(),
        0 <= k < images.len(),
        k < grid.rows as int * grid.columns as int,
        0 <= dx < images[0].spec_width(),
        0 <= dy < images[0].spec_height(),
    ensures
        max_width(images) == images[0].spec_width(),
        max_height(images) == images[0].spec_height(),
        sheet_pixel(
            images,
            images.len() as int,
            max_width(images),
            max_height(images),
            grid.columns as int,
            cell_column(k, grid.columns as int) * max_width(images) + dx,
            cell_row(k, grid.columns as int) * max_height(images) + dy,
        ) == images[k].spec_pixel(dx, dy),
{
    let w = images[0].spec_width() as int;
    let h = images[0].spec_height() as int;
    let c = grid.columns as int;
    lemma_uniform_extent(images, w, h);
    let x = cell_column(k, c) * w + dx;
    let y = cell_row(k, c) * h + dy;
    lemma_mod_division_less_than_divisor(k, c);
    lemma_div_pos_is_pos(k, c);
    assert(covers(images[k], k, w, h, c, x, y));
    assert forall|j: int| k + 1 <= j < images.len() implies !covers(
        #[trigger] images[j],
        j,
        w,
        h,
        c,
        x,
        y,
    ) by {
        lemma_mod_division_less_than_divisor(j, c);
        lemma_div_pos_is_pos(j, c);
        if cell_column(j, c) != cell_column(k, c) {
            lemma_distinct_cells_disjoint(cell_column(k, c), cell_column(j, c), w, x);
        } else if cell_row(j, c) != cell_row(k, c) {
            lemma_distinct_cells_disjoint(cell_row(k, c), cell_row(j, c), h, y);
        } else {
            // Same cell means the same position: contradiction with j > k.
            lemma_fundamental_div_mod(j, c);
            lemma_fundamental_div_mod(k, c);
            assert(j == k);
        }
    }
    lemma_sheet_pixel_stable(images, k + 1, images.len() as int, w, h, c, x, y);
}

/// A single image on a one-by-one grid is reproduced exactly: the canvas
/// has the image's own size and identical pixel content.
pub proof fn lemma_single_image_identity(img: Image, grid: GridSpec, c: Canvas)
    requires
        grid.rows == 1,
        grid.columns == 1,
        is_composition(seq![img], grid, c),
    ensures
        c.spec_width() == img.spec_width(),
        c.spec_height() == img.spec_height(),
        forall|x: int, y: int|
            0 <= x < img.spec_width() && 0 <= y < img.spec_height() ==> #[trigger] c.spec_pixel(
                x,
                y,
            ) == img.spec_pixel(x, y),
{
    let s = seq![img];
    assert(s.drop_last().len() == 0);
    assert(max_width(s.drop_last()) == 0);
    assert(max_height(s.drop_last()) == 0);
    assert(s.last() == img);
    assert(max_width(s) == img.spec_width());
    assert(max_height(s) == img.spec_height());
    assert forall|x: int, y: int|
        0 <= x < img.spec_width() && 0 <= y < img.spec_height() implies #[trigger] c.spec_pixel(
        x,
        y,
    ) == img.spec_pixel(x, y) by {
        let cc = grid.columns as int;
        assert(s[0] == img);
        assert(cell_column(0, cc) == 0);
        assert(cell_row(0, cc) == 0);
        assert(covers(s[0], 0, max_width(s), max_height(s), cc, x, y));
        assert(c.spec_pixel(x, y) == sheet_pixel(s, 1, max_width(s), max_height(s), cc, x, y));
    }
}

/// Compositing is deterministic: any two canvases that are compositions of
/// the same images on the same grid agree in size and are identical in
/// their whole row-major pixel buffers.
pub proof fn lemma_composition_deterministic(
    images: Seq<Image>,
    grid: GridSpec,
    c1: Canvas,
    c2: Canvas,
)
    requires
        is_composition(images, grid, c1),
        is_composition(images, grid, c2),
    ensures
        c1.spec_width() == c2.spec_width(),
        c1.spec_height() == c2.spec_height(),
        c1.spec_pixels() == c2.spec_pixels(),
{
    let w = c1.spec_width() as int;
    let h = c1.spec_height() as int;
    assert forall|i: int| 0 <= i < c1.spec_pixels().len() implies c1.spec_pixels()[i]
        == c2.spec_pixels()[i] by {
        lemma_mod_division_less_than_divisor(i, w);
        lemma_div_pos_is_pos(i, w);
        lemma_fundamental_div_mod(i, w);
        let x = i % w;
        let y = i / w;
        assert(y < h) by {
            if y >= h {
                lemma_mul_inequality(h, y, w);
                lemma_mul_is_commutative(w, h);
                lemma_mul_is_commutative(w, y);
            }
        }
        assert(c1.spec_pixel(x, y) == c2.spec_pixel(x, y));
        assert(y * w + x == i) by {
            lemma_mul_is_commutative(w, y);
        }
    }
    assert(c1.spec_pixels() =~= c2.spec_pixels());
}

} // verus!
