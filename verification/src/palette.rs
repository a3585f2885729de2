//! The palette: the tiles a mosaic can be made of, each with its average color.

use vstd::prelude::*;
use crate::color::{color_diff, color_distance, Color};
use crate::raster::{Image, ImageView};
use crate::text::same_string;

verus! {

/// What a [`Tile`] holds.
pub struct TileView {
    pub name: Seq<char>,
    pub color: Color,
    pub image: ImageView,
}

impl TileView {
    /// The tile is a square of `resolution` pixels a side, and its color is the
    /// mean color of its picture.
    pub open spec fn wf(self, resolution: nat) -> bool {
        &&& self.image.wf()
        &&& self.image.width == resolution
        &&& self.image.height == resolution
        &&& self.color == self.image.mean_color()
    }
}

/// A named square picture with the color that stands for it.
#[derive(Debug)]
pub struct Tile {
    name: String,
    color: Color,
    image: Image,
}

impl View for Tile {
    type V = TileView;

    closed spec fn view(&self) -> TileView {
        TileView { name: self.name@, color: self.color, image: self.image@ }
    }
}

impl Tile {
    /// A tile of the given name, color and picture.
    pub(crate) fn new(name: String, color: Color, image: Image) -> (tile: Tile)
        ensures
            tile@ == (TileView { name: name@, color, image: image@ }),
    {
        Tile { name, color, image }
    }

    /// Name of the tile.
    pub fn name(&self) -> (name: &String)
        ensures
            name@ == self@.name,
    {
        &self.name
    }

    /// Color that stands for the tile.
    pub fn color(&self) -> (color: Color)
        ensures
            color == self@.color,
    {
        self.color
    }

    /// Picture of the tile.
    pub fn image(&self) -> (image: &Image)
        ensures
            image@ == self@.image,
    {
        &self.image
    }
}

/// What a [`Palette`] holds: the side of its tiles and the tiles in their order.
pub struct PaletteView {
    pub resolution: nat,
    pub tiles: Seq<TileView>,
}

impl PaletteView {
    /// Every tile is a square of `resolution` pixels a side, and no two tiles
    /// share a name.
    pub open spec fn wf(self) -> bool {
        &&& self.resolution > 0
        &&& forall|i: int|
            0 <= i < self.tiles.len() ==> (#[trigger] self.tiles[i]).wf(self.resolution)
        &&& forall|i: int, j: int|
            0 <= i < j < self.tiles.len() ==> (#[trigger] self.tiles[i]).name != (
            #[trigger] self.tiles[j]).name
    }

    /// The colors of the tiles, in the order of the tiles.
    pub open spec fn colors(self) -> Seq<Color> {
        Seq::new(self.tiles.len(), |i: int| self.tiles[i].color)
    }

    /// The names of the tiles, in the order of the tiles.
    pub open spec fn names(self) -> Seq<Seq<char>> {
        names_of(self.tiles)
    }
}

/// The names of `tiles`, in their order.
pub open spec fn names_of(tiles: Seq<TileView>) -> Seq<Seq<char>> {
    Seq::new(tiles.len(), |i: int| tiles[i].name)
}

/// `tiles` with `tile` put in: it takes the place of the tile of its name, or
/// comes last if there is none.
pub open spec fn put(tiles: Seq<TileView>, tile: TileView) -> Seq<TileView> {
    match names_of(tiles).index_of_first(tile.name) {
        Some(i) => tiles.update(i, tile),
        None => tiles.push(tile),
    }
}

/// Putting a tile in keeps the names distinct and the tiles well-formed.
pub proof fn lemma_put_wf(palette: PaletteView, tile: TileView)
    requires
        palette.wf(),
        tile.wf(palette.resolution),
    ensures
        (PaletteView { resolution: palette.resolution, tiles: put(palette.tiles, tile) }).wf(),
{
    let tiles = palette.tiles;
    let after = put(tiles, tile);
    names_of(tiles).index_of_first_ensures(tile.name);
    match names_of(tiles).index_of_first(tile.name) {
        Some(i) => {
            assert forall|a: int, b: int|
                0 <= a < b < after.len() implies (#[trigger] after[a]).name != (
            #[trigger] after[b]).name by {
                assert(after[a].name == tiles[a].name);
                assert(after[b].name == tiles[b].name);
            }
        },
        None => {
            assert forall|a: int, b: int|
                0 <= a < b < after.len() implies (#[trigger] after[a]).name != (
            #[trigger] after[b]).name by {
                if b == tiles.len() {
                    assert(names_of(tiles)[a] == tiles[a].name);
                    assert(names_of(tiles).contains(tiles[a].name));
                } else {
                    assert(after[a].name == tiles[a].name);
                    assert(after[b].name == tiles[b].name);
                }
            }
        },
    }
}

/// Whether `colors[i]` is the first color of `colors` that is as near to `c`
/// as any: none is nearer, and those before it are farther.
pub open spec fn is_nearest(colors: Seq<Color>, c: Color, i: int) -> bool {
    &&& 0 <= i < colors.len()
    &&& forall|j: int|
        0 <= j < colors.len() ==> color_distance(colors[i], c) <= color_distance(
            #[trigger] colors[j],
            c,
        )
    &&& forall|j: int|
        0 <= j < i ==> color_distance(colors[i], c) < color_distance(#[trigger] colors[j], c)
}

/// Index of the first color of `colors` that is as near to `c` as any.
pub open spec fn nearest(colors: Seq<Color>, c: Color) -> int {
    choose|i: int| is_nearest(colors, c, i)
}

/// At most one index is the nearest.
pub proof fn lemma_nearest_unique(colors: Seq<Color>, c: Color, i: int, k: int)
    requires
        is_nearest(colors, c, i),
        is_nearest(colors, c, k),
    ensures
        i == k,
{
    if i < k {
        assert(color_distance(colors[k], c) < color_distance(colors[i], c));
        assert(color_distance(colors[i], c) <= color_distance(colors[k], c));
    } else if k < i {
        assert(color_distance(colors[i], c) < color_distance(colors[k], c));
        assert(color_distance(colors[k], c) <= color_distance(colors[i], c));
    }
}

/// Among one or more colors there is a nearest one, and [`nearest`] names it:
/// no color of `colors` is nearer to `c`.
pub proof fn lemma_nearest_exists(colors: Seq<Color>, c: Color)
    requires
        colors.len() > 0,
    ensures
        is_nearest(colors, c, nearest(colors, c)),
    decreases colors.len(),
{
    if colors.len() == 1 {
        assert(is_nearest(colors, c, 0));
    } else {
        let front = colors.drop_last();
        lemma_nearest_exists(front, c);
        let i = nearest(front, c);
        let last = colors.len() - 1;
        assert forall|j: int| 0 <= j < last implies front[j] == colors[j] by {}
        if color_distance(colors[last], c) < color_distance(colors[i], c) {
            assert forall|j: int| 0 <= j < colors.len() implies color_distance(colors[last], c)
                <= color_distance(#[trigger] colors[j], c) by {
                if j < last {
                    assert(color_distance(front[i], c) <= color_distance(front[j], c));
                }
            }
            assert forall|j: int| 0 <= j < last implies color_distance(colors[last], c)
                < color_distance(#[trigger] colors[j], c) by {
                assert(color_distance(front[i], c) <= color_distance(front[j], c));
            }
            assert(is_nearest(colors, c, last));
        } else {
            assert forall|j: int| 0 <= j < colors.len() implies color_distance(colors[i], c)
                <= color_distance(#[trigger] colors[j], c) by {
                if j < last {
                    assert(color_distance(front[i], c) <= color_distance(front[j], c));
                }
            }
            assert forall|j: int| 0 <= j < i implies color_distance(colors[i], c)
                < color_distance(#[trigger] colors[j], c) by {
                assert(color_distance(front[i], c) < color_distance(front[j], c));
            }
            assert(is_nearest(colors, c, i));
        }
    }
}

/// The tiles a mosaic can be made of: squares of one size with distinct names,
/// kept in the order in which their names first came.
#[derive(Debug)]
pub struct Palette {
    resolution: u32,
    tiles: Vec<Tile>,
}

impl View for Palette {
    type V = PaletteView;

    closed spec fn view(&self) -> PaletteView {
        PaletteView {
            resolution: self.resolution as nat,
            tiles: Seq::new(self.tiles@.len(), |i: int| self.tiles@[i]@),
        }
    }
}

impl Palette {
    /// A palette without tiles, for tiles of `resolution` pixels a side.
    pub fn new(resolution: u32) -> (palette: Palette)
        ensures
            palette@ == (PaletteView { resolution: resolution as nat, tiles: Seq::empty() }),
    {
        let palette = Palette { resolution, tiles: Vec::new() };
        assert(palette@.tiles =~= Seq::empty());
        palette
    }

    /// Puts `tile` in: it takes the place of the tile of its name, or comes last
    /// if there is none.
    pub(crate) fn insert(&mut self, tile: Tile)
        requires
            old(self)@.wf(),
            tile@.wf(old(self)@.resolution),
        ensures
            final(self)@.resolution == old(self)@.resolution,
            final(self)@.tiles == put(old(self)@.tiles, tile@),
            final(self)@.wf(),
    {
        let ghost before = self@;
        let ghost names = names_of(before.tiles);
        let ghost added = tile@;
        proof {
            lemma_put_wf(before, added);
            names.index_of_first_ensures(added.name);
        }
        let mut i: usize = 0;
        while i < self.tiles.len() && !same_string(&self.tiles[i].name, &tile.name)
            invariant
                i <= self.tiles.len(),
                self@ == before,
                added == tile@,
                names == names_of(before.tiles),
                names.len() == self.tiles.len(),
                forall|j: int| 0 <= j < i ==> names[j] != added.name,
            decreases self.tiles.len() - i,
        {
            i += 1;
        }
        if i < self.tiles.len() {
            proof {
                assert(names[i as int] == added.name);
                assert(names.contains(added.name));
                let first = names.index_of_first(added.name)->0;
                assert(names[first] == added.name);
                if i < first {
                    assert(names[i as int] != added.name);
                }
                assert(first == i);
            }
            self.tiles.set(i, tile);
            assert(self@.tiles =~= before.tiles.update(i as int, added));
        } else {
            assert(!names.contains(added.name));
            self.tiles.push(tile);
            assert(self@.tiles =~= before.tiles.push(added));
        }
    }

    /// Side of the tiles, in pixels.
    pub fn resolution(&self) -> (resolution: u32)
        ensures
            resolution == self@.resolution,
    {
        self.resolution
    }

    /// Number of tiles.
    pub fn len(&self) -> (n: usize)
        ensures
            n == self@.tiles.len(),
    {
        self.tiles.len()
    }

    /// Whether there is no tile.
    pub fn is_empty(&self) -> (empty: bool)
        ensures
            empty == (self@.tiles.len() == 0),
    {
        self.tiles.len() == 0
    }

    /// The `i`-th tile.
    pub fn tile(&self, i: usize) -> (tile: &Tile)
        requires
            i < self@.tiles.len(),
        ensures
            tile@ == self@.tiles[i as int],
    {
        &self.tiles[i]
    }

    /// Match color with closest color in the palette
    ///
    /// Returns the index of the first tile whose color is as near to `color`
    /// as any, or `None` if the palette is empty.
    pub fn best_match(&self, color: &Color) -> (best: Option<usize>)
        ensures
            best is None <==> self@.tiles.len() == 0,
            best matches Some(i) ==> is_nearest(self@.colors(), *color, i as int) && i == nearest(
                self@.colors(),
                *color,
            ),
    {
        let ghost colors = self@.colors();
        // Running best value
        let mut best: Option<(usize, u32)> = None;
        let mut k: usize = 0;
        while k < self.tiles.len()
            invariant
                k <= self.tiles.len(),
                colors == self@.colors(),
                colors.len() == self.tiles.len(),
                best is None <==> k == 0,
                best matches Some((i, diff)) ==> {
                    &&& is_nearest(colors.take(k as int), *color, i as int)
                    &&& diff == color_distance(colors[i as int], *color)
                },
            decreases self.tiles.len() - k,
        {
            let diff = color_diff(&self.tiles[k].color, color);
            proof {
                let before = colors.take(k as int);
                let after = colors.take(k + 1);
                assert forall|j: int| 0 <= j < k implies before[j] == after[j] by {}
                assert(after[k as int] == colors[k as int]);
            }
            let better = match best {
                None => true,
                Some((_, least)) => diff < least,
            };
            if better {
                best = Some((k, diff));
            }
            proof {
                let before = colors.take(k as int);
                let after = colors.take(k + 1);
                let i = match best {
                    Some((i, _)) => i as int,
                    None => 0,
                };
                assert forall|j: int| 0 <= j < after.len() implies color_distance(after[i], *color)
                    <= color_distance(#[trigger] after[j], *color) by {
                    if j < k && k > 0 {
                        assert(before[j] == after[j]);
                    }
                }
                assert forall|j: int| 0 <= j < i implies color_distance(after[i], *color)
                    < color_distance(#[trigger] after[j], *color) by {
                    assert(before[j] == after[j]);
                }
            }
            k += 1;
        }
        match best {
            None => None,
            Some((i, _)) => {
                proof {
                    assert(colors.take(k as int) == colors);
                    lemma_nearest_unique(colors, *color, i as int, nearest(colors, *color));
                }
                Some(i)
            },
        }
    }
}

} // verus!
