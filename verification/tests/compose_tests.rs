use framesheet::compose::{compose, tile_extent};
use framesheet::grid::GridSpec;
use framesheet::raster::{Canvas, Image, BACKGROUND};

fn image_of(width: u32, height: u32, pixels: Vec<u32>) -> Image {
    Image::new(width, height, pixels).expect("pixel buffer must match the dimensions")
}

fn canvas_pixels(canvas: &Canvas) -> Vec<u32> {
    let mut out: Vec<u32> = Vec::new();
    for y in 0..canvas.height() {
        for x in 0..canvas.width() {
            out.push(canvas.pixel(x, y));
        }
    }
    out
}

#[test]
fn image_new_rejects_mismatched_buffer() {
    assert!(Image::new(2, 2, vec![1, 2, 3]).is_none());
    assert!(Image::new(2, 2, vec![1, 2, 3, 4]).is_some());
}

#[test]
fn tile_extent_maximizes_each_axis_independently() {
    // One wide image and one tall image: the tile takes the width of the
    // first and the height of the second.
    let wide = image_of(3, 1, vec![1, 1, 1]);
    let tall = image_of(1, 5, vec![2, 2, 2, 2, 2]);
    let t = tile_extent(&vec![wide, tall]);
    assert_eq!(t.max_width, 3);
    assert_eq!(t.max_height, 5);
}

#[test]
fn uniform_two_by_two_grid_places_row_major() {
    // Four 2x1 images on a (2, 2) grid: canvas is (2W, 2H) = (4, 2) with
    // image k flush at its cell corner.
    let images = vec![
        image_of(2, 1, vec![10, 11]),
        image_of(2, 1, vec![20, 21]),
        image_of(2, 1, vec![30, 31]),
        image_of(2, 1, vec![40, 41]),
    ];
    let grid = GridSpec {
        rows: 2,
        columns: 2,
    };
    let canvas = compose(&images, &grid);
    assert_eq!(canvas.width(), 4);
    assert_eq!(canvas.height(), 2);
    assert_eq!(
        canvas_pixels(&canvas),
        vec![10, 11, 20, 21, 30, 31, 40, 41]
    );
}

#[test]
fn excess_images_are_clipped_without_growing_the_canvas() {
    // Three 1x1 images on a (1, 2) grid: the third lands on cell row 1,
    // at or past the single grid row, so its pixel is dropped.
    let images = vec![
        image_of(1, 1, vec![10]),
        image_of(1, 1, vec![20]),
        image_of(1, 1, vec![30]),
    ];
    let grid = GridSpec {
        rows: 1,
        columns: 2,
    };
    let canvas = compose(&images, &grid);
    assert_eq!(canvas.width(), 2);
    assert_eq!(canvas.height(), 1);
    assert_eq!(canvas_pixels(&canvas), vec![10, 20]);
}

#[test]
fn single_image_on_unit_grid_is_identity() {
    let pixels = vec![1, 2, 3, 4, 5, 6];
    let images = vec![image_of(3, 2, pixels.clone())];
    let grid = GridSpec {
        rows: 1,
        columns: 1,
    };
    let canvas = compose(&images, &grid);
    assert_eq!(canvas.width(), 3);
    assert_eq!(canvas.height(), 2);
    assert_eq!(canvas_pixels(&canvas), pixels);
}

#[test]
fn smaller_images_sit_flush_top_left_with_background_padding() {
    // Tile is 2x2 (the larger image); the 1x1 image leaves the rest of its
    // cell as the background, which is 0.
    let images = vec![
        image_of(2, 2, vec![1, 2, 3, 4]),
        image_of(1, 1, vec![9]),
    ];
    let grid = GridSpec {
        rows: 1,
        columns: 2,
    };
    let canvas = compose(&images, &grid);
    assert_eq!(canvas.width(), 4);
    assert_eq!(canvas.height(), 2);
    assert_eq!(BACKGROUND, 0);
    assert_eq!(
        canvas_pixels(&canvas),
        vec![1, 2, 9, BACKGROUND, 3, 4, BACKGROUND, BACKGROUND]
    );
}

#[test]
fn compose_is_deterministic() {
    let make_inputs = || {
        vec![
            image_of(2, 1, vec![7, 8]),
            image_of(1, 2, vec![5, 6]),
            image_of(2, 2, vec![1, 2, 3, 4]),
        ]
    };
    let grid = GridSpec {
        rows: 2,
        columns: 2,
    };
    let first = compose(&make_inputs(), &grid);
    let second = compose(&make_inputs(), &grid);
    assert_eq!(first.width(), second.width());
    assert_eq!(first.height(), second.height());
    assert_eq!(first.into_pixels(), second.into_pixels());
}

#[test]
fn empty_input_gives_empty_canvas() {
    let images: Vec<Image> = Vec::new();
    let grid = GridSpec {
        rows: 2,
        columns: 3,
    };
    let canvas = compose(&images, &grid);
    assert_eq!(canvas.width(), 0);
    assert_eq!(canvas.height(), 0);
    assert_eq!(canvas.into_pixels(), Vec::<u32>::new());
}
