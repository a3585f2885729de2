//! Composing a mosaic: matching blocks with tiles and laying the tiles out.

use vstd::prelude::*;
use crate::color::Color;
use crate::palette::{is_nearest, lemma_nearest_exists, nearest, Palette, PaletteView};
use crate::raster::{blank, covers, lemma_pixel_index, overlay, resampled, Image, ImageView};
use crate::resample::{
    can_resample, is_resampling, resample, resample_fits, spec_target_height, target_height,
    ResampleFilter,
};
use crate::tally::{indices, tally_blocks, total, usage, UsageTally};

verus! {

/// Side of a tile, in pixels, where nothing else is asked for.
pub const BLOCK_RES: u32 = 16;

/// Why no mosaic could be made.
#[derive(Clone, Copy, Debug, PartialEq, Eq, Structural)]
pub enum MosaicError {
    /// The palette holds no tile to choose from.
    EmptyPalette,
    /// The picture is too flat for the requested width: the grid would have no row.
    InvalidResampleTarget,
}

/// Index of the tile matched with each pixel of `proxy`, row by row: the first
/// tile whose color is as near to the pixel as any.
pub open spec fn matches(proxy: ImageView, colors: Seq<Color>) -> Seq<int> {
    Seq::new(proxy.pixel_count(), |p: int| nearest(colors, proxy.pixel_at(p)))
}

/// The pixel (`x`, `y`) of the block in column `col` and row `row` of a canvas
/// whose blocks are `resolution` pixels a side.
pub open spec fn block_pixel(
    canvas: ImageView,
    resolution: nat,
    col: int,
    row: int,
    x: int,
    y: int,
) -> Color {
    canvas.pixel(col * resolution + x, row * resolution + y)
}

/// Whether `canvas` is a grid of `width` by `height` blocks on which the block in
/// column `col` of row `row` shows the tile `tiles[row * width + col]` of
/// `palette`, pixel for pixel.
pub open spec fn shows(
    canvas: ImageView,
    width: nat,
    height: nat,
    palette: PaletteView,
    tiles: Seq<int>,
) -> bool {
    &&& canvas.wf()
    &&& canvas.width == width * palette.resolution
    &&& canvas.height == height * palette.resolution
    &&& forall|col: int, row: int, x: int, y: int|
        0 <= col < width && 0 <= row < height && 0 <= x < palette.resolution && 0 <= y
            < palette.resolution ==> #[trigger] block_pixel(
            canvas,
            palette.resolution,
            col,
            row,
            x,
            y,
        ) == palette.tiles[tiles[row * width + col]].image.pixel(x, y)
}

/// Whether `canvas` is the mosaic of `proxy`: one block for each pixel of
/// `proxy`, in the same place, that shows the tile matched with the pixel.
pub open spec fn is_canvas_of(canvas: ImageView, proxy: ImageView, palette: PaletteView) -> bool {
    shows(canvas, proxy.width, proxy.height, palette, matches(proxy, palette.colors()))
}

/// Whether `canvas` and `tally` are the mosaic of `proxy` and its list of tiles:
/// the canvas shows the matched tiles, and the tally counts, for each tile that
/// is matched at all, the blocks that show it.
pub open spec fn is_mosaic(
    canvas: ImageView,
    tally: Seq<(Seq<char>, nat)>,
    proxy: ImageView,
    palette: PaletteView,
) -> bool {
    &&& is_canvas_of(canvas, proxy, palette)
    &&& tally == usage(palette.names(), matches(proxy, palette.colors()))
    &&& total(tally) == proxy.pixel_count()
}

/// Whether the mosaic of a grid of `width` by `height` blocks, each `resolution`
/// pixels a side, can be held: its sides fit in 32 bits, its samples can be
/// allocated, and the number of blocks fits in a count.
pub open spec fn canvas_fits(width: nat, height: nat, resolution: nat) -> bool {
    &&& width * resolution <= u32::MAX
    &&& height * resolution <= u32::MAX
    &&& 3 * (width * resolution) * (height * resolution) <= isize::MAX
    &&& width * height <= u32::MAX
}

/// Whether the mosaic of a `source_width` by `source_height` picture, `width`
/// blocks wide and of tiles `resolution` pixels a side, can be made: the picture
/// can be scaled to the grid and the canvas can be held.
pub open spec fn mosaic_fits(
    width: nat,
    source_width: nat,
    source_height: nat,
    resolution: nat,
) -> bool {
    &&& resample_fits(width, source_width, source_height)
    &&& canvas_fits(width, spec_target_height(width, source_width, source_height), resolution)
}

/// The grid that [`make_img`] works on when the filter is not the cubic one.
pub open spec fn proxy_of(original: ImageView, width: nat, linear: bool) -> ImageView {
    let height = spec_target_height(width, original.width, original.height);
    ImageView {
        width,
        height,
        data: resampled(original.data, original.width, original.height, width, height, linear),
    }
}

/// No pixel is matched with a tile that is farther from it than another tile of
/// the palette: the tile matched is the first of those that are nearest.
pub proof fn lemma_matches_are_nearest(proxy: ImageView, colors: Seq<Color>, p: int)
    requires
        colors.len() > 0,
        0 <= p < proxy.pixel_count(),
    ensures
        is_nearest(colors, proxy.pixel_at(p), matches(proxy, colors)[p]),
{
    lemma_nearest_exists(colors, proxy.pixel_at(p));
}

/// A position `p` of a grid `width` wide, split in row and column, is `p` again.
proof fn lemma_grid_position(p: int, width: int)
    requires
        0 <= p,
        0 < width,
    ensures
        0 <= p % width < width,
        0 <= p / width,
        (p / width) * width + p % width == p,
{
    vstd::arithmetic::div_mod::lemma_fundamental_div_mod(p, width);
    vstd::arithmetic::div_mod::lemma_mod_bound(p, width);
    vstd::arithmetic::div_mod::lemma_div_pos_is_pos(p, width);
    assert((p / width) * width == width * (p / width)) by (nonlinear_arith);
}

/// Row and column of a position of a grid are the only ones that give it.
proof fn lemma_grid_position_unique(width: int, row: int, col: int, other_row: int, other_col: int)
    requires
        0 <= col < width,
        0 <= other_col < width,
        row * width + col == other_row * width + other_col,
    ensures
        row == other_row,
        col == other_col,
{
    assert(row == other_row) by (nonlinear_arith)
        requires
            0 <= col < width,
            0 <= other_col < width,
            row * width + col == other_row * width + other_col,
    ;
    assert(row * width == other_row * width);
}

/// A position of a grid of `width` by `height` lies in the row before `height`.
proof fn lemma_grid_row(p: int, width: int, height: int)
    requires
        0 <= p < width * height,
        0 < width,
    ensures
        p / width < height,
{
    lemma_grid_position(p, width);
    let row = p / width;
    assert(row < height) by (nonlinear_arith)
        requires
            row * width + p % width == p,
            0 <= p % width,
            p < width * height,
            0 < width,
    ;
}

/// The pixels of a block lie inside the canvas, and inside no other block of
/// its row or column.
proof fn lemma_block_span(resolution: int, count: int, index: int, offset: int, other: int)
    requires
        0 <= index < count,
        0 <= offset < resolution,
    ensures
        0 <= index * resolution + offset < count * resolution,
        (other * resolution <= index * resolution + offset < other * resolution + resolution) <==> (
        other == index),
{
    assert(0 <= index * resolution + offset < count * resolution) by (nonlinear_arith)
        requires
            0 <= index < count,
            0 <= offset < resolution,
    ;
    assert((other * resolution <= index * resolution + offset < other * resolution + resolution)
        <==> (other == index)) by (nonlinear_arith)
        requires
            0 <= offset < resolution,
    ;
}

/// Every pixel of a canvas is settled by the tiles it shows: the pixel
/// (`px`, `py`) is that of the tile of its block, at the place that the pixel
/// has within the block.
pub proof fn lemma_canvas_pixel(
    canvas: ImageView,
    width: nat,
    height: nat,
    palette: PaletteView,
    tiles: Seq<int>,
    px: int,
    py: int,
)
    requires
        shows(canvas, width, height, palette, tiles),
        palette.resolution > 0,
        0 <= px < canvas.width,
        0 <= py < canvas.height,
    ensures
        0 <= px / (palette.resolution as int) < width,
        0 <= py / (palette.resolution as int) < height,
        canvas.pixel(px, py) == palette.tiles[tiles[(py / (palette.resolution as int)) * width + px
            / (palette.resolution as int)]].image.pixel(
            px % (palette.resolution as int),
            py % (palette.resolution as int),
        ),
{
    let side = palette.resolution as int;
    lemma_grid_position(px, side);
    lemma_grid_position(py, side);
    let col = px / side;
    let row = py / side;
    assert(col < width) by (nonlinear_arith)
        requires
            col * side + px % side == px,
            0 <= px % side,
            px < width * side,
            0 < side,
    ;
    assert(row < height) by (nonlinear_arith)
        requires
            row * side + py % side == py,
            0 <= py % side,
            py < height * side,
            0 < side,
    ;
    assert(block_pixel(canvas, palette.resolution, col, row, px % side, py % side) == canvas.pixel(
        px,
        py,
    ));
}

/// Finds the tile for every pixel of `proxy`: the index of the first tile whose
/// color is as near to the pixel as any, row by row.
pub fn match_pixels(proxy: &Image, palette: &Palette) -> (blocks: Vec<usize>)
    requires
        proxy@.wf(),
        palette@.tiles.len() > 0,
    ensures
        blocks@.len() == proxy@.pixel_count(),
        indices(blocks@) == matches(proxy@, palette@.colors()),
        forall|p: int| 0 <= p < blocks@.len() ==> #[trigger] blocks@[p] < palette@.tiles.len(),
{
    let pixels = proxy.pixel_count();
    let ghost colors = palette@.colors();
    let ghost tiles = matches(proxy@, colors);

    // Map pixel to tile
    let mut blocks: Vec<usize> = Vec::new();
    let mut p: usize = 0;
    while p < pixels
        invariant
            p <= pixels,
            pixels == proxy@.pixel_count(),
            proxy@.wf(),
            palette@.tiles.len() > 0,
            colors == palette@.colors(),
            tiles == matches(proxy@, colors),
            blocks@.len() == p,
            forall|q: int|
                0 <= q < p ==> #[trigger] blocks@[q] == tiles[q] && blocks@[q]
                    < palette@.tiles.len(),
        decreases pixels - p,
    {
        let color = proxy.pixel_at(p);
        let block = palette.best_match(&color).unwrap();
        blocks.push(block);
        p += 1;
    }
    assert(indices(blocks@) == tiles);
    blocks
}

/// Lays the tiles out: a canvas of `width` by `height` blocks on which the
/// `p`-th block, row by row, shows the tile `blocks[p]` of `palette`.
pub fn lay_tiles(width: u32, height: u32, palette: &Palette, blocks: &Vec<usize>) -> (canvas: Image)
    requires
        palette@.wf(),
        canvas_fits(width as nat, height as nat, palette@.resolution),
        blocks@.len() == width * height,
        forall|p: int| 0 <= p < blocks@.len() ==> #[trigger] blocks@[p] < palette@.tiles.len(),
    ensures
        shows(canvas@, width as nat, height as nat, palette@, indices(blocks@)),
{
    let resolution = palette.resolution();
    let pixels = blocks.len();
    let ghost tiles = indices(blocks@);

    // Create final image
    let mut canvas = blank(width * resolution, height * resolution);

    // Overlay tile images onto final image
    let mut p: usize = 0;
    while p < pixels
        invariant
            p <= pixels,
            pixels == width * height,
            pixels == tiles.len(),
            resolution == palette@.resolution,
            palette@.wf(),
            width * resolution <= u32::MAX,
            height * resolution <= u32::MAX,
            tiles == indices(blocks@),
            blocks@.len() == pixels,
            forall|q: int| 0 <= q < pixels ==> #[trigger] blocks@[q] < palette@.tiles.len(),
            canvas@.wf(),
            canvas@.width == width * resolution,
            canvas@.height == height * resolution,
            forall|col: int, row: int, x: int, y: int|
                0 <= col < width && 0 <= row < height && 0 <= x < resolution && 0 <= y < resolution
                    && row * width + col < p ==> #[trigger] block_pixel(
                    canvas@,
                    resolution as nat,
                    col,
                    row,
                    x,
                    y,
                ) == palette@.tiles[tiles[row * width + col]].image.pixel(x, y),
        decreases pixels - p,
    {
        // Find coordinates to place tile image
        proof {
            assert(width > 0) by (nonlinear_arith)
                requires
                    p < width * height,
            ;
            lemma_grid_position(p as int, width as int);
            lemma_grid_row(p as int, width as int, height as int);
            lemma_block_span(
                resolution as int,
                width as int,
                p as int % width as int,
                0,
                p as int % width as int,
            );
            lemma_block_span(
                resolution as int,
                height as int,
                p as int / width as int,
                0,
                p as int / width as int,
            );
        }
        let col = (p % width as usize) as u32;
        let row = (p / width as usize) as u32;
        let x = col * resolution;
        let y = row * resolution;
        let top = palette.tile(blocks[p]).image();
        let ghost before = canvas@;
        assert(tiles[p as int] == blocks@[p as int]);
        assert(top@ == palette@.tiles[tiles[p as int]].image);
        assert(palette@.tiles[tiles[p as int]].wf(palette@.resolution));

        // Overlay tile image
        overlay(&mut canvas, top, x, y);

        proof {
            assert forall|c: int, r: int, tx: int, ty: int|
                0 <= c < width && 0 <= r < height && 0 <= tx < resolution && 0 <= ty < resolution
                    && r * width + c < p + 1 implies #[trigger] block_pixel(
                canvas@,
                resolution as nat,
                c,
                r,
                tx,
                ty,
            ) == palette@.tiles[tiles[r * width + c]].image.pixel(tx, ty) by {
                let px = c * resolution + tx;
                let py = r * resolution + ty;
                lemma_block_span(resolution as int, width as int, c, tx, col as int);
                lemma_block_span(resolution as int, height as int, r, ty, row as int);
                assert(canvas@.pixel(px, py) == if covers(top@, x as int, y as int, px, py) {
                    top@.pixel(px - x, py - y)
                } else {
                    before.pixel(px, py)
                });
                if c == col && r == row {
                    assert(covers(top@, x as int, y as int, px, py));
                    assert(r * width + c == p);
                } else {
                    assert(!covers(top@, x as int, y as int, px, py));
                    if r * width + c == p {
                        lemma_grid_position_unique(width as int, r, c, row as int, col as int);
                    }
                    assert(block_pixel(before, resolution as nat, c, r, tx, ty)
                        == palette@.tiles[tiles[r * width + c]].image.pixel(tx, ty));
                }
            }
        }
        p += 1;
    }
    proof {
        assert forall|col: int, row: int, x: int, y: int|
            0 <= col < width && 0 <= row < height && 0 <= x < resolution && 0 <= y
                < resolution implies #[trigger] block_pixel(
            canvas@,
            resolution as nat,
            col,
            row,
            x,
            y,
        ) == palette@.tiles[tiles[row * width + col]].image.pixel(x, y) by {
            lemma_pixel_index(width as nat, height as nat, col, row);
        }
    }
    canvas
}

/// Makes the mosaic of a grid: for every pixel of `proxy` the nearest tile of
/// `palette` is found, counted, and put on the canvas at the place of the pixel.
///
/// Fails, before anything is allocated, if the palette is empty.
pub fn compose(proxy: &Image, palette: &Palette) -> (r: Result<(Image, UsageTally), MosaicError>)
    requires
        proxy@.wf(),
        palette@.wf(),
        canvas_fits(proxy@.width, proxy@.height, palette@.resolution),
    ensures
        r is Err <==> palette@.tiles.len() == 0,
        r matches Err(e) ==> e == MosaicError::EmptyPalette,
        r matches Ok((canvas, tally)) ==> is_mosaic(canvas@, tally@, proxy@, palette@),
{
    if palette.is_empty() {
        return Err(MosaicError::EmptyPalette);
    }
    // Map pixel to tile
    let blocks = match_pixels(proxy, palette);

    // Create list of tiles required
    let tally = tally_blocks(palette, &blocks);

    // Create final image
    let canvas = lay_tiles(proxy.width(), proxy.height(), palette, &blocks);

    Ok((canvas, tally))
}

/// Whether the mosaic of a grid of `width` by `height` blocks, each `resolution`
/// pixels a side, can be held.
pub fn can_compose(width: u32, height: u32, resolution: u32) -> (fits: bool)
    ensures
        fits == canvas_fits(width as nat, height as nat, resolution as nat),
{
    assert(width * resolution <= 0xffff_ffff * 0xffff_ffff) by (nonlinear_arith)
        requires
            0 <= width <= 0xffff_ffff,
            0 <= resolution <= 0xffff_ffff,
    ;
    assert(height * resolution <= 0xffff_ffff * 0xffff_ffff) by (nonlinear_arith)
        requires
            0 <= height <= 0xffff_ffff,
            0 <= resolution <= 0xffff_ffff,
    ;
    assert(width * height <= 0xffff_ffff * 0xffff_ffff) by (nonlinear_arith)
        requires
            0 <= width <= 0xffff_ffff,
            0 <= height <= 0xffff_ffff,
    ;
    let across = width as u64 * resolution as u64;
    let down = height as u64 * resolution as u64;
    let blocks = width as u64 * height as u64;
    if across > u32::MAX as u64 || down > u32::MAX as u64 || blocks > u32::MAX as u64 {
        return false;
    }
    assert(3 * across * down <= 3 * 0xffff_ffff * 0xffff_ffff) by (nonlinear_arith)
        requires
            0 <= across <= 0xffff_ffff,
            0 <= down <= 0xffff_ffff,
    ;
    assert(3 * across <= 3 * 0xffff_ffff);
    3 * (across as u128) * (down as u128) <= isize::MAX as u128
}

/// Whether the mosaic of a `source_width` by `source_height` picture, `width`
/// blocks wide and of tiles `resolution` pixels a side, can be made.
pub fn can_make_img(width: u32, source_width: u32, source_height: u32, resolution: u32) -> (fits:
    bool)
    requires
        source_width > 0,
    ensures
        fits == mosaic_fits(
            width as nat,
            source_width as nat,
            source_height as nat,
            resolution as nat,
        ),
{
    if !can_resample(width, source_width, source_height) {
        return false;
    }
    let height = target_height(width, source_width, source_height);
    can_compose(width, height as u32, resolution)
}

/// Create image from input image and palette of tiles
///
/// Returns final image and tally of required tiles
///
/// `original`: picture to make a mosaic of
///
/// `map`: palette of tile images
///
/// `width`: width of final image, in tiles
///
/// `filter`: filter type used for resizing the image
///
/// Fails if the palette is empty; if it is not, fails if the picture is too
/// flat for a grid of that width to have a row.
pub fn make_img(original: Image, map: Palette, width: u32, filter: ResampleFilter) -> (r: Result<
    (Image, UsageTally),
    MosaicError,
>)
    requires
        original@.wf(),
        original@.width > 0,
        map@.wf(),
        mosaic_fits(width as nat, original@.width, original@.height, map@.resolution),
    ensures
        match r {
            Err(MosaicError::EmptyPalette) => map@.tiles.len() == 0,
            Err(MosaicError::InvalidResampleTarget) => {
                &&& map@.tiles.len() > 0
                &&& spec_target_height(width as nat, original@.width, original@.height) == 0
            },
            Ok((canvas, tally)) => {
                &&& map@.tiles.len() > 0
                &&& spec_target_height(width as nat, original@.width, original@.height) > 0
                &&& exists|proxy: ImageView|
                    is_resampling(proxy, original@, width as nat, filter) && #[trigger] is_mosaic(
                        canvas@,
                        tally@,
                        proxy,
                        map@,
                    )
                &&& filter != ResampleFilter::Cubic ==> is_mosaic(
                    canvas@,
                    tally@,
                    proxy_of(original@, width as nat, filter == ResampleFilter::Linear),
                    map@,
                )
            },
        },
{
    if map.is_empty() {
        return Err(MosaicError::EmptyPalette);
    }
    // Resize image
    let proxy = match resample(&original, width, filter) {
        Ok(proxy) => proxy,
        Err(e) => {
            return Err(e);
        },
    };
    // Match and lay out the tiles
    let r = compose(&proxy, &map);
    proof {
        if r is Ok {
            let canvas = r->Ok_0.0;
            let tally = r->Ok_0.1;
            assert(is_resampling(proxy@, original@, width as nat, filter) && is_mosaic(
                canvas@,
                tally@,
                proxy@,
                map@,
            ));
            if filter != ResampleFilter::Cubic {
                let linear = filter == ResampleFilter::Linear;
                assert(proxy@ == proxy_of(original@, width as nat, linear));
            }
        }
    }
    r
}

} // verus!
