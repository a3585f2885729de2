//! Counting how many blocks of a mosaic need each tile.

use vstd::prelude::*;
use crate::palette::Palette;
use crate::text::{chars_of, same};

verus! {

/// The test "is the tile `tile`".
pub open spec fn is_tile(tile: int) -> spec_fn(int) -> bool {
    |m: int| m == tile
}

/// How many of `matches` are the tile `tile`.
pub open spec fn count_of(matches: Seq<int>, tile: int) -> nat {
    matches.filter(is_tile(tile)).len()
}

/// Name and count of every tile, used or not, in the order of the tiles.
pub open spec fn all_counts(names: Seq<Seq<char>>, matches: Seq<int>) -> Seq<(Seq<char>, nat)> {
    Seq::new(names.len(), |i: int| (names[i], count_of(matches, i)))
}

/// The test "is used at least once".
pub open spec fn is_used() -> spec_fn((Seq<char>, nat)) -> bool {
    |entry: (Seq<char>, nat)| entry.1 > 0
}

/// Name and count of the tiles that `matches` uses, in the order of the tiles.
pub open spec fn usage(names: Seq<Seq<char>>, matches: Seq<int>) -> Seq<(Seq<char>, nat)> {
    all_counts(names, matches).filter(is_used())
}

/// Sum of the counts of a tally.
pub open spec fn total(tally: Seq<(Seq<char>, nat)>) -> nat
    decreases tally.len(),
{
    if tally.len() == 0 {
        0
    } else {
        total(tally.drop_last()) + tally.last().1
    }
}

/// The names of a tally, in its order.
pub open spec fn tally_names(tally: Seq<(Seq<char>, nat)>) -> Seq<Seq<char>> {
    Seq::new(tally.len(), |k: int| tally[k].0)
}

/// The count that a tally holds for `name`: that of its first entry of that
/// name, or 0 if it has none.
pub open spec fn needed(tally: Seq<(Seq<char>, nat)>, name: Seq<char>) -> nat {
    match tally_names(tally).index_of_first(name) {
        Some(k) => tally[k].1,
        None => 0,
    }
}

/// The indices that `blocks` holds, as numbers.
pub open spec fn indices(blocks: Seq<usize>) -> Seq<int> {
    Seq::new(blocks.len(), |p: int| blocks[p] as int)
}

/// A filter keeps no more than there is.
proof fn lemma_count_bound(matches: Seq<int>, tile: int)
    ensures
        count_of(matches, tile) <= matches.len(),
{
    matches.lemma_filter_len(is_tile(tile));
}

/// One more match adds one to the count of its tile and nothing to the others.
proof fn lemma_count_push(matches: Seq<int>, m: int, tile: int)
    ensures
        count_of(matches.push(m), tile) == count_of(matches, tile) + if m == tile {
            1nat
        } else {
            0nat
        },
{
    matches.lemma_filter_push(m, is_tile(tile));
}

/// Number of the `matches` that are a tile before `bound`.
spec fn count_below(matches: Seq<int>, bound: int) -> nat {
    matches.filter(|m: int| m < bound).len()
}

/// The matches before `bound + 1` are those before `bound` and those of `bound`.
proof fn lemma_count_below_step(matches: Seq<int>, bound: int)
    ensures
        count_below(matches, bound + 1) == count_below(matches, bound) + count_of(matches, bound),
    decreases matches.len(),
{
    if matches.len() > 0 {
        let front = matches.drop_last();
        let last = matches.last();
        lemma_count_below_step(front, bound);
        assert(matches == front.push(last));
        front.lemma_filter_push(last, |m: int| m < bound + 1);
        front.lemma_filter_push(last, |m: int| m < bound);
        front.lemma_filter_push(last, is_tile(bound));
    }
}

/// Where every match is before `bound`, all of them are counted.
proof fn lemma_count_below_all(matches: Seq<int>, bound: int)
    requires
        forall|p: int| 0 <= p < matches.len() ==> matches[p] < bound,
    ensures
        count_below(matches, bound) == matches.len(),
    decreases matches.len(),
{
    if matches.len() > 0 {
        let front = matches.drop_last();
        let last = matches.last();
        lemma_count_below_all(front, bound);
        assert(matches == front.push(last));
        front.lemma_filter_push(last, |m: int| m < bound);
    }
}

/// No match is before the first tile.
proof fn lemma_count_below_none(matches: Seq<int>)
    requires
        forall|p: int| 0 <= p < matches.len() ==> 0 <= matches[p],
    ensures
        count_below(matches, 0) == 0,
    decreases matches.len(),
{
    if matches.len() > 0 {
        let front = matches.drop_last();
        let last = matches.last();
        lemma_count_below_none(front);
        assert(matches == front.push(last));
        front.lemma_filter_push(last, |m: int| m < 0);
    }
}

/// The counts of the first `k` tiles add up to the number of matches before `k`.
proof fn lemma_total_upto(names: Seq<Seq<char>>, matches: Seq<int>, k: int)
    requires
        0 <= k <= names.len(),
        forall|p: int| 0 <= p < matches.len() ==> 0 <= matches[p],
    ensures
        total(all_counts(names, matches).take(k).filter(is_used())) == count_below(matches, k),
    decreases k,
{
    let all = all_counts(names, matches);
    if k == 0 {
        lemma_count_below_none(matches);
        assert(all.take(0).filter(is_used()).len() == 0) by {
            all.take(0).lemma_filter_len(is_used());
        }
    } else {
        lemma_total_upto(names, matches, k - 1);
        lemma_count_below_step(matches, k - 1);
        let front = all.take(k - 1);
        let entry = all[k - 1];
        assert(all.take(k) == front.push(entry));
        front.lemma_filter_push(entry, is_used());
        if entry.1 > 0 {
            let used = front.filter(is_used()).push(entry);
            assert(used.drop_last() == front.filter(is_used()));
        }
    }
}

/// The counts of a tally add up to the number of matches: every block is
/// counted once.
pub proof fn lemma_usage_total(names: Seq<Seq<char>>, matches: Seq<int>)
    requires
        forall|p: int| 0 <= p < matches.len() ==> 0 <= #[trigger] matches[p] < names.len(),
    ensures
        total(usage(names, matches)) == matches.len(),
{
    let all = all_counts(names, matches);
    lemma_total_upto(names, matches, names.len() as int);
    assert(all.take(names.len() as int) == all);
    lemma_count_below_all(matches, names.len() as int);
}

/// A tally maps each name to the number of blocks that need its tile: where no
/// two tiles share a name, the count that the tally holds for the name of a
/// tile is the number of matches of that tile.
pub proof fn lemma_usage_needed(names: Seq<Seq<char>>, matches: Seq<int>, tile: int)
    requires
        0 <= tile < names.len(),
        forall|i: int, j: int| 0 <= i < j < names.len() ==> names[i] != names[j],
    ensures
        needed(usage(names, matches), names[tile]) == count_of(matches, tile),
{
    let all = all_counts(names, matches);
    let tally = usage(names, matches);
    let listed = tally_names(tally);
    let entry = all[tile];
    listed.index_of_first_ensures(names[tile]);
    if entry.1 > 0 {
        assert(is_used()(entry));
        all.lemma_filter_contains(is_used(), tile);
        let at = choose|k: int| 0 <= k < tally.len() && tally[k] == entry;
        assert(listed[at] == names[tile]);
        assert(listed.contains(names[tile]));
    }
    match listed.index_of_first(names[tile]) {
        Some(k) => {
            assert(listed[k] == tally[k].0);
            assert(tally.contains(tally[k]));
            all.lemma_filter_contains_rev(is_used(), tally[k]);
            all.lemma_filter_pred(is_used(), k);
            let from = choose|i: int| 0 <= i < all.len() && all[i] == tally[k];
            assert(names[from] == names[tile]);
            if from < tile {
                assert(names[from] != names[tile]);
            }
            if tile < from {
                assert(names[tile] != names[from]);
            }
        },
        None => {},
    }
}

/// What a list of names and counts holds.
pub open spec fn entry_views(entries: Seq<(String, u32)>) -> Seq<(Seq<char>, nat)> {
    Seq::new(entries.len(), |k: int| (entries[k].0@, entries[k].1 as nat))
}

/// How many blocks need each tile: name and count of every tile that is used,
/// in the order of the palette.
#[derive(Debug)]
pub struct UsageTally {
    entries: Vec<(String, u32)>,
}

impl View for UsageTally {
    type V = Seq<(Seq<char>, nat)>;

    closed spec fn view(&self) -> Seq<(Seq<char>, nat)> {
        entry_views(self.entries@)
    }
}

impl UsageTally {
    /// Number of tiles that are used.
    pub fn len(&self) -> (n: usize)
        ensures
            n == self@.len(),
    {
        self.entries.len()
    }

    /// Name of the `k`-th tile that is used.
    pub fn name(&self, k: usize) -> (name: &String)
        requires
            k < self@.len(),
        ensures
            name@ == self@[k as int].0,
    {
        &self.entries[k].0
    }

    /// Number of blocks that need the `k`-th tile that is used.
    pub fn count(&self, k: usize) -> (count: u32)
        requires
            k < self@.len(),
        ensures
            count == self@[k as int].1,
    {
        self.entries[k].1
    }

    /// Number of blocks that need the tile `name`; 0 if it is not used.
    pub fn needed(&self, name: &str) -> (count: u32)
        ensures
            count == needed(self@, name@),
    {
        let wanted = chars_of(name);
        let ghost listed = tally_names(self@);
        let mut k: usize = 0;
        while k < self.entries.len() && !same(&chars_of(self.entries[k].0.as_str()), &wanted)
            invariant
                k <= self.entries@.len(),
                wanted@ == name@,
                listed == tally_names(self@),
                listed.len() == self.entries@.len(),
                forall|j: int| 0 <= j < k ==> listed[j] != name@,
            decreases self.entries@.len() - k,
        {
            k += 1;
        }
        proof {
            listed.index_of_first_ensures(name@);
            if k < self.entries@.len() {
                assert(listed[k as int] == name@);
                assert(listed.contains(name@));
                let first = listed.index_of_first(name@)->0;
                assert(listed[first] == name@);
                if k < first {
                    assert(listed[k as int] != name@);
                }
            } else {
                assert(!listed.contains(name@));
            }
        }
        if k < self.entries.len() {
            self.entries[k].1
        } else {
            0
        }
    }

    /// The tally as a list for a report: name and count of each tile that is
    /// used, in the order of the tally.
    pub fn report(&self) -> (list: Vec<(String, u32)>)
        ensures
            entry_views(list@) == self@,
    {
        let mut list: Vec<(String, u32)> = Vec::new();
        let mut k: usize = 0;
        while k < self.entries.len()
            invariant
                k <= self.entries@.len(),
                entry_views(list@) == self@.take(k as int),
            decreases self.entries@.len() - k,
        {
            list.push((self.entries[k].0.clone(), self.entries[k].1));
            assert(entry_views(list@) == self@.take(k as int).push(self@[k as int]));
            k += 1;
        }
        assert(self@.take(self@.len() as int) == self@);
        list
    }
}

/// Counts the blocks that need each tile of `palette`, where `blocks` holds the
/// index of the tile of each block.
pub fn tally_blocks(palette: &Palette, blocks: &Vec<usize>) -> (tally: UsageTally)
    requires
        blocks@.len() <= u32::MAX,
        forall|p: int| 0 <= p < blocks@.len() ==> #[trigger] blocks@[p] < palette@.tiles.len(),
    ensures
        tally@ == usage(palette@.names(), indices(blocks@)),
        total(tally@) == blocks@.len(),
{
    let ghost names = palette@.names();
    let ghost tiles = indices(blocks@);
    let pixels = blocks.len();

    // Count the blocks of each tile
    let mut counts: Vec<u32> = Vec::new();
    let mut i: usize = 0;
    while i < palette.len()
        invariant
            i <= palette@.tiles.len(),
            counts@.len() == i,
            forall|j: int| 0 <= j < i ==> counts@[j] == 0,
        decreases palette@.tiles.len() - i,
    {
        counts.push(0);
        i += 1;
    }
    assert forall|j: int| 0 <= j < counts@.len() implies counts@[j] == count_of(
        tiles.take(0),
        j,
    ) by {
        tiles.take(0).lemma_filter_len(is_tile(j));
    }
    let mut p: usize = 0;
    while p < pixels
        invariant
            p <= pixels,
            pixels == blocks@.len(),
            pixels <= u32::MAX,
            tiles == indices(blocks@),
            counts@.len() == palette@.tiles.len(),
            forall|q: int| 0 <= q < pixels ==> #[trigger] blocks@[q] < palette@.tiles.len(),
            forall|j: int|
                0 <= j < counts@.len() ==> counts@[j] == count_of(tiles.take(p as int), j),
        decreases pixels - p,
    {
        let block = blocks[p];
        proof {
            lemma_count_bound(tiles.take(p as int), block as int);
            assert(tiles.take(p + 1) == tiles.take(p as int).push(tiles[p as int]));
            assert forall|j: int| 0 <= j < counts@.len() implies count_of(tiles.take(p + 1), j)
                == count_of(tiles.take(p as int), j) + if j == block {
                1nat
            } else {
                0nat
            } by {
                lemma_count_push(tiles.take(p as int), tiles[p as int], j);
            }
        }
        let count = counts[block];
        counts.set(block, count + 1);
        p += 1;
    }
    assert(tiles.take(pixels as int) == tiles);

    // List the tiles that are used
    let ghost all = all_counts(names, tiles);
    let mut entries: Vec<(String, u32)> = Vec::new();
    let mut i: usize = 0;
    assert(all.take(0).filter(is_used()).len() == 0) by {
        all.take(0).lemma_filter_len(is_used());
    }
    while i < palette.len()
        invariant
            i <= palette@.tiles.len(),
            names == palette@.names(),
            all == all_counts(names, tiles),
            counts@.len() == palette@.tiles.len(),
            forall|j: int| 0 <= j < counts@.len() ==> counts@[j] == count_of(tiles, j),
            entry_views(entries@) == all.take(i as int).filter(is_used()),
        decreases palette@.tiles.len() - i,
    {
        proof {
            assert(all.take(i + 1) == all.take(i as int).push(all[i as int]));
            all.take(i as int).lemma_filter_push(all[i as int], is_used());
        }
        let ghost before = entry_views(entries@);
        if counts[i] > 0 {
            let name = palette.tile(i).name().clone();
            entries.push((name, counts[i]));
            assert(entry_views(entries@) == before.push(all[i as int]));
        }
        i += 1;
    }
    assert(all.take(palette@.tiles.len() as int) == all);
    proof {
        assert forall|q: int| 0 <= q < tiles.len() implies 0 <= #[trigger] tiles[q]
            < names.len() by {
            assert(blocks@[q] < palette@.tiles.len());
        }
        lemma_usage_total(names, tiles);
    }
    UsageTally { entries }
}

} // verus!
