//! Building a palette from candidate pictures: which are taken, under which
//! name, and which are passed over.

use vstd::prelude::*;
use vstd::string::*;
use crate::color::Color;
use crate::palette::{names_of, put, lemma_put_wf, Palette, PaletteView, Tile, TileView};
use crate::raster::{
    img_average, lemma_to_rgb_mean, lemma_to_rgb_pixels, lemma_uniform_mean, rgba8_to_rgb8, Image,
    RgbaImage, RgbaView,
};
use crate::text::{chars_of, ends_with, has_suffix};

verus! {

/// A picture that may become a tile, as it was found.
#[derive(Debug)]
pub struct Candidate {
    /// Name of the file that holds the picture.
    pub file_name: String,
    /// The decoded picture.
    pub image: RgbaImage,
}

/// What a [`Candidate`] holds.
pub struct CandidateView {
    pub file_name: Seq<char>,
    pub image: RgbaView,
}

impl View for Candidate {
    type V = CandidateView;

    open spec fn view(&self) -> CandidateView {
        CandidateView { file_name: self.file_name@, image: self.image@ }
    }
}

/// What the `candidates` hold, in their order.
pub open spec fn views(candidates: Seq<Candidate>) -> Seq<CandidateView> {
    Seq::new(candidates.len(), |i: int| candidates[i]@)
}

/// The characters of `file` before its first `.`, or all of them if it has none.
pub open spec fn stem(file: Seq<char>) -> Seq<char> {
    match file.index_of_first('.') {
        Some(dot) => file.take(dot),
        None => file,
    }
}

/// The ending that marks the file of a tile.
pub open spec fn tile_ending() -> Seq<char> {
    seq!['.', 'p', 'n', 'g']
}

/// Name of the tile that the file `file` holds: its stem, if the file is marked
/// as a tile by its ending.
pub open spec fn spec_tile_name(file: Seq<char>) -> Option<Seq<char>> {
    if has_suffix(file, tile_ending()) {
        Some(stem(file))
    } else {
        None
    }
}

/// Whether `image` can be a tile: a square of `resolution` pixels a side with
/// no pixel that lets anything shine through.
pub open spec fn is_tile_image(image: RgbaView, resolution: nat) -> bool {
    &&& image.width == resolution
    &&& image.height == resolution
    &&& image.is_opaque()
}

/// The tile that `candidate` gives, if it gives one: it has to be marked as a
/// tile by its name and to hold a picture that can be a tile.
pub open spec fn tile_of(candidate: CandidateView, resolution: nat) -> Option<TileView> {
    match spec_tile_name(candidate.file_name) {
        Some(name) => if is_tile_image(candidate.image, resolution) {
            Some(
                TileView {
                    name,
                    color: candidate.image.mean_color(),
                    image: candidate.image.to_rgb(),
                },
            )
        } else {
            None
        },
        None => None,
    }
}

/// The tiles that `candidates` give, each put in its turn: of two tiles with
/// one name the later takes the place of the earlier.
pub open spec fn collect(candidates: Seq<CandidateView>, resolution: nat) -> Seq<TileView>
    decreases candidates.len(),
{
    if candidates.len() == 0 {
        Seq::empty()
    } else {
        let tiles = collect(candidates.drop_last(), resolution);
        match tile_of(candidates.last(), resolution) {
            Some(tile) => put(tiles, tile),
            None => tiles,
        }
    }
}

/// A tile made from a candidate is well-formed.
pub proof fn lemma_tile_of_wf(candidate: CandidateView, resolution: nat)
    requires
        candidate.image.wf(),
    ensures
        tile_of(candidate, resolution) matches Some(tile) ==> tile.wf(resolution),
{
    lemma_to_rgb_pixels(candidate.image);
    lemma_to_rgb_mean(candidate.image);
}

/// The tiles collected from candidates make a well-formed palette: squares of
/// one size, each with the mean color of its picture, no two of one name.
pub proof fn lemma_collect_wf(candidates: Seq<CandidateView>, resolution: nat)
    requires
        resolution > 0,
        forall|i: int| 0 <= i < candidates.len() ==> (#[trigger] candidates[i]).image.wf(),
    ensures
        (PaletteView { resolution, tiles: collect(candidates, resolution) }).wf(),
    decreases candidates.len(),
{
    if candidates.len() > 0 {
        let front = candidates.drop_last();
        assert forall|i: int| 0 <= i < front.len() implies (#[trigger] front[i]).image.wf() by {
            assert(front[i] == candidates[i]);
        }
        lemma_collect_wf(front, resolution);
        lemma_tile_of_wf(candidates.last(), resolution);
        match tile_of(candidates.last(), resolution) {
            Some(tile) => {
                lemma_put_wf(
                    PaletteView { resolution, tiles: collect(front, resolution) },
                    tile,
                );
            },
            None => {},
        }
    }
}

/// A candidate that gives no tile leaves no trace: the tiles are those
/// collected without it.
pub proof fn lemma_refused_is_left_out(candidates: Seq<CandidateView>, i: int, resolution: nat)
    requires
        0 <= i < candidates.len(),
        tile_of(candidates[i], resolution) is None,
    ensures
        collect(candidates, resolution) == collect(candidates.remove(i), resolution),
    decreases candidates.len(),
{
    let others = candidates.remove(i);
    if i == candidates.len() - 1 {
        assert(others == candidates.drop_last());
    } else {
        lemma_refused_is_left_out(candidates.drop_last(), i, resolution);
        assert(others.drop_last() == candidates.drop_last().remove(i));
        assert(others.last() == candidates.last());
    }
}

/// A candidate with a pixel that is not opaque is left out of the palette.
pub proof fn lemma_transparent_is_left_out(
    candidates: Seq<CandidateView>,
    i: int,
    resolution: nat,
)
    requires
        0 <= i < candidates.len(),
        !candidates[i].image.is_opaque(),
    ensures
        tile_of(candidates[i], resolution) is None,
        collect(candidates, resolution) == collect(candidates.remove(i), resolution),
{
    lemma_refused_is_left_out(candidates, i, resolution);
}

/// A candidate that is not a square of the palette's resolution is left out of
/// the palette.
pub proof fn lemma_wrong_size_is_left_out(
    candidates: Seq<CandidateView>,
    i: int,
    resolution: nat,
)
    requires
        0 <= i < candidates.len(),
        candidates[i].image.width != resolution || candidates[i].image.height != resolution,
    ensures
        tile_of(candidates[i], resolution) is None,
        collect(candidates, resolution) == collect(candidates.remove(i), resolution),
{
    lemma_refused_is_left_out(candidates, i, resolution);
}

/// Putting a tile in leaves the tiles of other names as they are, each in its
/// place, and the tile itself is among the tiles afterwards.
pub proof fn lemma_put_keeps(tiles: Seq<TileView>, tile: TileView)
    ensures
        put(tiles, tile).contains(tile),
        put(tiles, tile).len() >= tiles.len(),
        forall|k: int|
            0 <= k < tiles.len() && tiles[k].name != tile.name ==> #[trigger] put(tiles, tile)[k]
                == tiles[k],
{
    let names = names_of(tiles);
    names.index_of_first_ensures(tile.name);
    match names.index_of_first(tile.name) {
        Some(i) => {
            assert(put(tiles, tile)[i] == tile);
            assert forall|k: int|
                0 <= k < tiles.len() && tiles[k].name != tile.name implies #[trigger] put(
                tiles,
                tile,
            )[k] == tiles[k] by {
                assert(names[i] == tiles[i].name);
            }
        },
        None => {
            assert(put(tiles, tile)[tiles.len() as int] == tile);
        },
    }
}

/// Whether `candidate` gives a tile called `name`.
pub open spec fn gives(candidate: CandidateView, resolution: nat, name: Seq<char>) -> bool {
    tile_of(candidate, resolution) matches Some(tile) && tile.name == name
}

/// Of the candidates that give a tile of one name, the last one wins: its tile
/// is in the palette.
pub proof fn lemma_last_wins(candidates: Seq<CandidateView>, i: int, resolution: nat)
    requires
        0 <= i < candidates.len(),
        tile_of(candidates[i], resolution) is Some,
        forall|j: int|
            i < j < candidates.len() ==> !#[trigger] gives(
                candidates[j],
                resolution,
                tile_of(candidates[i], resolution)->0.name,
            ),
    ensures
        collect(candidates, resolution).contains(tile_of(candidates[i], resolution)->0),
    decreases candidates.len(),
{
    let tile = tile_of(candidates[i], resolution)->0;
    let front = candidates.drop_last();
    let tiles = collect(front, resolution);
    if i == candidates.len() - 1 {
        lemma_put_keeps(tiles, tile);
    } else {
        assert(front[i] == candidates[i]);
        assert forall|j: int| i < j < front.len() implies !#[trigger] gives(
            front[j],
            resolution,
            tile.name,
        ) by {
            assert(front[j] == candidates[j]);
        }
        lemma_last_wins(front, i, resolution);
        let at = choose|k: int| 0 <= k < tiles.len() && tiles[k] == tile;
        match tile_of(candidates.last(), resolution) {
            Some(later) => {
                assert(!gives(candidates[candidates.len() - 1], resolution, tile.name));
                lemma_put_keeps(tiles, later);
                assert(put(tiles, later)[at] == tile);
            },
            None => {},
        }
    }
}

/// Every tile of the palette comes from a candidate.
pub proof fn lemma_collect_sources(candidates: Seq<CandidateView>, resolution: nat, k: int)
    requires
        0 <= k < collect(candidates, resolution).len(),
    ensures
        exists|i: int|
            0 <= i < candidates.len() && #[trigger] tile_of(candidates[i], resolution) == Some(
                collect(candidates, resolution)[k],
            ),
    decreases candidates.len(),
{
    let last = candidates.len() - 1;
    let front = candidates.drop_last();
    let tiles = collect(front, resolution);
    let wanted = collect(candidates, resolution)[k];
    let from_front = k < tiles.len() && tiles[k] == wanted;
    if !from_front {
        let tile = tile_of(candidates[last], resolution)->0;
        names_of(tiles).index_of_first_ensures(tile.name);
        assert(tile_of(candidates[last], resolution) == Some(wanted));
    } else {
        lemma_collect_sources(front, resolution, k);
        let i = choose|i: int|
            0 <= i < front.len() && #[trigger] tile_of(front[i], resolution) == Some(tiles[k]);
        assert(front[i] == candidates[i]);
        assert(tile_of(candidates[i], resolution) == Some(wanted));
    }
}

/// A candidate that can be a tile and whose pixels all have the color `c`
/// gives a tile that `c` stands for.
pub proof fn lemma_uniform_tile(candidate: CandidateView, resolution: nat, c: Color)
    requires
        resolution > 0,
        candidate.image.wf(),
        tile_of(candidate, resolution) is Some,
        forall|p: int|
            0 <= p < candidate.image.pixel_count() ==> #[trigger] candidate.image.pixel_at(p) == c,
    ensures
        tile_of(candidate, resolution)->0.color == c,
{
    assert(candidate.image.pixel_count() > 0) by (nonlinear_arith)
        requires
            candidate.image.pixel_count() == candidate.image.width * candidate.image.height,
            candidate.image.width == resolution,
            candidate.image.height == resolution,
            resolution > 0,
    ;
    lemma_uniform_mean(candidate.image, c);
}

/// Returns every character before first `.` in filename
pub fn remove_filename_ext<'a>(file: &'a str) -> (name: Option<&'a str>)
    ensures
        name matches Some(name) && name@ == stem(file@),
{
    let chars = chars_of(file);
    let mut dot: usize = 0;
    while dot < chars.len() && chars[dot] != '.'
        invariant
            dot <= chars@.len(),
            forall|j: int| 0 <= j < dot ==> chars@[j] != '.',
        decreases chars@.len() - dot,
    {
        dot += 1;
    }
    proof {
        file@.index_of_first_ensures('.');
        if dot < chars@.len() {
            assert(file@.contains('.'));
            let first = file@.index_of_first('.')->0;
            assert(file@[first] == '.');
            if dot < first {
                assert(file@[dot as int] != '.');
            }
            assert(first == dot);
        } else {
            assert(!file@.contains('.'));
            assert(file@.subrange(0, dot as int) == file@);
        }
    }
    Some(file.substring_char(0, dot))
}

/// Name of the tile that the file `file` holds, if its ending marks it as a tile.
pub fn tile_name(file: &str) -> (name: Option<String>)
    ensures
        name is Some <==> spec_tile_name(file@) is Some,
        name matches Some(name) ==> Some(name@) == spec_tile_name(file@),
{
    let mut ending: Vec<char> = Vec::new();
    ending.push('.');
    ending.push('p');
    ending.push('n');
    ending.push('g');
    assert(ending@ == tile_ending());
    // Pass over a file that is not png
    if !ends_with(&chars_of(file), &ending) {
        return None;
    }
    // Remove file extension
    match remove_filename_ext(file) {
        None => None,
        Some(name) => Some(name.to_owned()),
    }
}

/// Takes a decoded picture as average color and opaque picture, if it can be
/// a tile of `resolution` pixels a side.
pub fn read_img(img: &RgbaImage, resolution: u32) -> (tile: Option<(Color, Image)>)
    requires
        img@.wf(),
        resolution > 0,
    ensures
        tile is Some <==> is_tile_image(img@, resolution as nat),
        tile matches Some((color, image)) ==> color == img@.mean_color() && image@
            == img@.to_rgb(),
{
    // Return `None` if image is not standard size
    if img.width() != resolution || img.height() != resolution {
        return None;
    }
    assert(img@.pixel_count() > 0) by (nonlinear_arith)
        requires
            img@.pixel_count() == img@.width * img@.height,
            img@.width > 0,
            img@.height > 0,
    ;

    // Get average color value of image
    let average_color = match img_average(img) {
        Some(color) => color,
        // Return `None` if image is not entirely opaque
        None => {
            return None;
        },
    };

    Some((average_color, rgba8_to_rgb8(img)))
}

/// Get palette of tiles from candidate pictures
///
/// Each candidate that is marked as a tile by its name and holds a picture that
/// can be a tile is put in, in the order of `candidates`; the others are passed
/// over. Of two candidates with one tile name the later one stays.
pub fn get_map(candidates: &Vec<Candidate>, resolution: u32) -> (map: Palette)
    requires
        resolution > 0,
        forall|i: int| 0 <= i < candidates@.len() ==> (#[trigger] candidates@[i])@.image.wf(),
    ensures
        map@.resolution == resolution,
        map@.tiles == collect(views(candidates@), resolution as nat),
        map@.wf(),
{
    let mut map = Palette::new(resolution);
    let ghost all = views(candidates@);

    // Loop candidates
    let mut i: usize = 0;
    while i < candidates.len()
        invariant
            i <= candidates@.len(),
            resolution > 0,
            all == views(candidates@),
            forall|j: int| 0 <= j < candidates@.len() ==> (#[trigger] candidates@[j])@.image.wf(),
            map@.resolution == resolution,
            map@.tiles == collect(all.take(i as int), resolution as nat),
            map@.wf(),
        decreases candidates@.len() - i,
    {
        let candidate = &candidates[i];
        proof {
            assert(all.take(i + 1).drop_last() == all.take(i as int));
            assert(all.take(i + 1).last() == candidate@);
            lemma_tile_of_wf(candidate@, resolution as nat);
        }
        // Get name from filename, continue if not marked as a tile
        if let Some(name) = tile_name(candidate.file_name.as_str()) {
            // Take picture if is valid
            if let Some((color, image)) = read_img(&candidate.image, resolution) {
                map.insert(Tile::new(name, color, image));
            }
        }
        i += 1;
    }
    assert(all.take(candidates@.len() as int) == all);
    map
}

} // verus!
