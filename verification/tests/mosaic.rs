use mcimg::catalog::{get_map, Candidate};
use mcimg::mosaic::{
    can_compose, can_make_img, compose, lay_tiles, make_img, match_pixels, MosaicError,
};
use mcimg::raster::{Image, RgbaImage};
use mcimg::resample::ResampleFilter;
use mcimg::{Palette, BLOCK_RES};

/// An image of the given size with one color.
fn plain(width: u32, height: u32, color: [u8; 3]) -> Image {
    let mut data = Vec::new();
    for _ in 0..width * height {
        data.extend_from_slice(&color);
    }
    Image::from_raw(width, height, data).unwrap()
}

/// An image made of the given pixels, row by row.
fn image_of(width: u32, height: u32, pixels: &[[u8; 3]]) -> Image {
    let mut data = Vec::new();
    for pixel in pixels {
        data.extend_from_slice(pixel);
    }
    Image::from_raw(width, height, data).unwrap()
}

/// A candidate with an opaque square picture made of the given pixels.
fn tile(name: &str, side: u32, pixels: &[[u8; 3]]) -> Candidate {
    let mut data = Vec::new();
    for pixel in pixels {
        data.extend_from_slice(pixel);
        data.push(255);
    }
    Candidate {
        file_name: format!("{}.png", name),
        image: RgbaImage::from_raw(side, side, data).unwrap(),
    }
}

/// A candidate with an opaque square picture of one color.
fn plain_tile(name: &str, side: u32, color: [u8; 3]) -> Candidate {
    let pixels = vec![color; (side * side) as usize];
    tile(name, side, &pixels)
}

fn red_and_blue(side: u32) -> Palette {
    get_map(
        &vec![plain_tile("red", side, [255, 0, 0]), plain_tile("blue", side, [0, 0, 255])],
        side,
    )
}

fn sum_of_counts(tally: &mcimg::tally::UsageTally) -> u64 {
    (0..tally.len()).map(|k| tally.count(k) as u64).sum()
}

#[test]
fn block_resolution_is_sixteen() {
    assert_eq!(BLOCK_RES, 16);
}

#[test]
fn reddish_pixel_is_matched_with_the_red_tile() {
    let map = red_and_blue(BLOCK_RES);
    let proxy = plain(1, 1, [200, 10, 10]);
    let (canvas, tally) = compose(&proxy, &map).unwrap();
    assert_eq!(tally.len(), 1);
    assert_eq!(tally.name(0), "red");
    assert_eq!(tally.count(0), 1);
    assert_eq!(tally.needed("red"), 1);
    assert_eq!(tally.needed("blue"), 0);
    assert_eq!(canvas.width(), 16);
    assert_eq!(canvas.height(), 16);
    assert_eq!(canvas.as_raw(), plain(16, 16, [255, 0, 0]).as_raw());
}

#[test]
fn empty_palette_fails_before_composition() {
    let map = get_map(&vec![], BLOCK_RES);
    let proxy = plain(3, 2, [200, 10, 10]);
    assert_eq!(compose(&proxy, &map).err(), Some(MosaicError::EmptyPalette));
    // even if there is nothing to match
    let proxy = plain(0, 0, [0, 0, 0]);
    assert_eq!(compose(&proxy, &map).err(), Some(MosaicError::EmptyPalette));
    let map = get_map(&vec![], BLOCK_RES);
    assert_eq!(
        make_img(plain(3, 2, [1, 1, 1]), map, 3, ResampleFilter::Nearest).err(),
        Some(MosaicError::EmptyPalette)
    );
    // all candidates filtered out
    let candidates = vec![Candidate {
        file_name: "glass.png".to_string(),
        image: RgbaImage::from_raw(16, 16, vec![128; 16 * 16 * 4]).unwrap(),
    }];
    let map = get_map(&candidates, BLOCK_RES);
    assert_eq!(
        make_img(plain(3, 2, [1, 1, 1]), map, 3, ResampleFilter::Nearest).err(),
        Some(MosaicError::EmptyPalette)
    );
}

#[test]
fn empty_palette_comes_before_an_invalid_target() {
    let map = get_map(&vec![], BLOCK_RES);
    assert_eq!(
        make_img(plain(4, 1, [1, 1, 1]), map, 2, ResampleFilter::Nearest).err(),
        Some(MosaicError::EmptyPalette)
    );
}

#[test]
fn too_flat_a_picture_is_an_invalid_target() {
    assert_eq!(
        make_img(plain(4, 1, [1, 1, 1]), red_and_blue(16), 2, ResampleFilter::Nearest).err(),
        Some(MosaicError::InvalidResampleTarget)
    );
    assert_eq!(
        make_img(plain(300, 200, [1, 1, 1]), red_and_blue(16), 1, ResampleFilter::Linear).err(),
        Some(MosaicError::InvalidResampleTarget)
    );
    assert_eq!(
        make_img(plain(300, 200, [1, 1, 1]), red_and_blue(16), 0, ResampleFilter::Cubic).err(),
        Some(MosaicError::InvalidResampleTarget)
    );
    assert!(make_img(plain(300, 200, [1, 1, 1]), red_and_blue(16), 2, ResampleFilter::Nearest)
        .is_ok());
}

#[test]
fn canvas_is_the_grid_times_the_resolution() {
    let proxy = plain(5, 3, [200, 10, 10]);
    let (canvas, _) = compose(&proxy, &red_and_blue(16)).unwrap();
    assert_eq!(canvas.width(), 5 * 16);
    assert_eq!(canvas.height(), 3 * 16);
    assert_eq!(canvas.as_raw().len(), 5 * 16 * 3 * 16 * 3);
    let (canvas, _) = compose(&proxy, &red_and_blue(2)).unwrap();
    assert_eq!(canvas.width(), 10);
    assert_eq!(canvas.height(), 6);
    let (canvas, _) =
        make_img(plain(300, 200, [0, 0, 200]), red_and_blue(16), 100, ResampleFilter::Nearest)
            .unwrap();
    assert_eq!(canvas.width(), 1600);
    assert_eq!(canvas.height(), 66 * 16);
}

#[test]
fn counts_add_up_to_the_number_of_blocks() {
    let red = [250, 5, 5];
    let blue = [5, 5, 250];
    let proxy = image_of(3, 2, &[red, blue, blue, blue, red, blue]);
    let (_, tally) = compose(&proxy, &red_and_blue(2)).unwrap();
    assert_eq!(tally.len(), 2);
    assert_eq!(tally.needed("red"), 2);
    assert_eq!(tally.needed("blue"), 4);
    assert_eq!(sum_of_counts(&tally), 3 * 2);

    let (_, tally) =
        make_img(plain(300, 200, [0, 0, 200]), red_and_blue(16), 100, ResampleFilter::Nearest)
            .unwrap();
    assert_eq!(sum_of_counts(&tally), 100 * 66);
    assert_eq!(tally.needed("blue"), 6600);
    assert_eq!(tally.len(), 1);
}

#[test]
fn tally_lists_used_tiles_in_the_order_of_the_palette() {
    let map = get_map(
        &vec![
            plain_tile("black", 2, [0, 0, 0]),
            plain_tile("grey", 2, [128, 128, 128]),
            plain_tile("white", 2, [255, 255, 255]),
        ],
        2,
    );
    let proxy = image_of(2, 2, &[[250, 250, 250], [1, 1, 1], [255, 255, 255], [0, 0, 0]]);
    let (_, tally) = compose(&proxy, &map).unwrap();
    assert_eq!(tally.len(), 2);
    assert_eq!(tally.name(0), "black");
    assert_eq!(tally.count(0), 2);
    assert_eq!(tally.name(1), "white");
    assert_eq!(tally.count(1), 2);
    assert_eq!(tally.needed("grey"), 0);
    assert_eq!(tally.needed("pink"), 0);
    assert_eq!(
        tally.report(),
        vec![("black".to_string(), 2), ("white".to_string(), 2)]
    );
}

#[test]
fn tiles_are_laid_out_like_the_pixels() {
    // tiles that show which way up they are
    let a = [[10, 0, 0], [20, 0, 0], [30, 0, 0], [40, 0, 0]];
    let b = [[0, 0, 210], [0, 0, 220], [0, 0, 230], [0, 0, 240]];
    let map = get_map(&vec![tile("a", 2, &a), tile("b", 2, &b)], 2);
    assert_eq!(map.tile(0).color(), mcimg::color::Color { r: 25, g: 0, b: 0 });
    assert_eq!(map.tile(1).color(), mcimg::color::Color { r: 0, g: 0, b: 225 });
    let near_a = [30, 0, 0];
    let near_b = [0, 0, 200];
    // a b b
    // b a a
    let proxy = image_of(3, 2, &[near_a, near_b, near_b, near_b, near_a, near_a]);
    let (canvas, tally) = compose(&proxy, &map).unwrap();
    assert_eq!(canvas.width(), 6);
    assert_eq!(canvas.height(), 4);
    let rows = [
        [a[0], a[1], b[0], b[1], b[0], b[1]],
        [a[2], a[3], b[2], b[3], b[2], b[3]],
        [b[0], b[1], a[0], a[1], a[0], a[1]],
        [b[2], b[3], a[2], a[3], a[2], a[3]],
    ];
    let mut expected = Vec::new();
    for row in rows {
        for pixel in row {
            expected.extend_from_slice(&pixel);
        }
    }
    assert_eq!(canvas.as_raw(), &expected);
    assert_eq!(tally.needed("a"), 3);
    assert_eq!(tally.needed("b"), 3);
}

#[test]
fn every_block_shows_its_tile() {
    let side = BLOCK_RES;
    let mut checker = Vec::new();
    for y in 0..side {
        for x in 0..side {
            checker.push(if (x + y) % 2 == 0 { [250, 250, 250] } else { [200, 200, 200] });
        }
    }
    let map = get_map(&vec![plain_tile("coal", side, [20, 20, 20]), tile("quartz", side, &checker)], side);
    let proxy = image_of(2, 2, &[[0, 0, 0], [255, 255, 255], [230, 230, 230], [30, 30, 30]]);
    let (canvas, _) = compose(&proxy, &map).unwrap();
    let chosen = [[0usize, 1], [1, 0]];
    for row in 0..2u32 {
        for col in 0..2u32 {
            let shown = map.tile(chosen[row as usize][col as usize]).image();
            for y in 0..side {
                for x in 0..side {
                    assert_eq!(
                        canvas.get_pixel(col * side + x, row * side + y),
                        shown.get_pixel(x, y)
                    );
                }
            }
        }
    }
}

#[test]
fn matching_takes_the_first_of_equally_near_tiles() {
    let map = get_map(
        &vec![plain_tile("dark", 2, [100, 100, 100]), plain_tile("light", 2, [120, 120, 120])],
        2,
    );
    let proxy = image_of(2, 1, &[[110, 110, 110], [111, 110, 110]]);
    assert_eq!(match_pixels(&proxy, &map), vec![0, 1]);
    let (_, tally) = compose(&proxy, &map).unwrap();
    assert_eq!(tally.needed("dark"), 1);
    assert_eq!(tally.needed("light"), 1);
}

#[test]
fn matching_goes_row_by_row() {
    let map = red_and_blue(2);
    let red = [250, 5, 5];
    let blue = [5, 5, 250];
    let proxy = image_of(3, 2, &[red, blue, blue, blue, red, blue]);
    assert_eq!(match_pixels(&proxy, &map), vec![0, 1, 1, 1, 0, 1]);
    assert_eq!(match_pixels(&plain(0, 4, [0, 0, 0]), &map), Vec::<usize>::new());
}

#[test]
fn laying_tiles_out_puts_each_in_its_block() {
    let map = red_and_blue(2);
    let canvas = lay_tiles(2, 1, &map, &vec![1, 0]);
    assert_eq!(canvas.width(), 4);
    assert_eq!(canvas.height(), 2);
    let r = [255, 0, 0];
    let b = [0, 0, 255];
    assert_eq!(canvas.as_raw(), image_of(4, 2, &[b, b, r, r, b, b, r, r]).as_raw());
    let canvas = lay_tiles(0, 0, &map, &vec![]);
    assert_eq!(canvas.width(), 0);
    assert!(canvas.as_raw().is_empty());
}

#[test]
fn mosaic_of_an_empty_grid_is_empty() {
    let (canvas, tally) = compose(&plain(0, 3, [0, 0, 0]), &red_and_blue(16)).unwrap();
    assert_eq!(canvas.width(), 0);
    assert_eq!(canvas.height(), 48);
    assert!(canvas.as_raw().is_empty());
    assert_eq!(tally.len(), 0);
    assert_eq!(tally.needed("red"), 0);
}

#[test]
fn whole_run_on_a_small_picture() {
    let red = [240, 10, 10];
    let blue = [10, 10, 240];
    // the picture has the size of the grid, so the grid is the picture
    let original = image_of(2, 2, &[red, blue, blue, red]);
    let (canvas, tally) = make_img(original, red_and_blue(2), 2, ResampleFilter::Nearest).unwrap();
    let r = [255, 0, 0];
    let b = [0, 0, 255];
    let expected = image_of(4, 4, &[r, r, b, b, r, r, b, b, b, b, r, r, b, b, r, r]);
    assert_eq!(canvas.width(), 4);
    assert_eq!(canvas.height(), 4);
    assert_eq!(canvas.as_raw(), expected.as_raw());
    assert_eq!(tally.needed("red"), 2);
    assert_eq!(tally.needed("blue"), 2);
}

#[test]
fn whole_run_scales_the_picture_down() {
    // left half reddish, right half bluish
    let mut pixels = Vec::new();
    for _ in 0..8 {
        for x in 0..8 {
            pixels.push(if x < 4 { [230, 20, 20] } else { [20, 20, 230] });
        }
    }
    for filter in [ResampleFilter::Nearest, ResampleFilter::Linear, ResampleFilter::Cubic] {
        let original = image_of(8, 8, &pixels);
        let (canvas, tally) = make_img(original, red_and_blue(16), 2, filter).unwrap();
        assert_eq!(canvas.width(), 32);
        assert_eq!(canvas.height(), 32);
        assert_eq!(tally.needed("red"), 2);
        assert_eq!(tally.needed("blue"), 2);
        for y in 0..32 {
            for x in 0..32 {
                let expected = if x < 16 { [255, 0, 0] } else { [0, 0, 255] };
                let c = canvas.get_pixel(x, y);
                assert_eq!([c.r, c.g, c.b], expected);
            }
        }
    }
}

#[test]
fn sizes_that_fit() {
    assert!(can_compose(100, 66, 16));
    assert!(can_compose(0, 0, 16));
    assert!(can_compose(1, 1, 1));
    // a side of the canvas would not fit in 32 bits
    assert!(!can_compose(1 << 28, 1, 16));
    assert!(!can_compose(1, 1 << 28, 16));
    // more blocks than a count can hold
    assert!(!can_compose(1 << 16, 1 << 16, 1));
    assert!(can_make_img(100, 300, 200, 16));
    assert!(can_make_img(1, 300, 200, 16));
    assert!(!can_make_img(2_000_000, 300, 200, 16));
    assert!(!can_make_img(100, 300, 200, u32::MAX));
}
