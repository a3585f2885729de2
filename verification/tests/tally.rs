use mcimg::catalog::{get_map, Candidate};
use mcimg::raster::RgbaImage;
use mcimg::tally::tally_blocks;
use mcimg::Palette;

/// A palette of uniform tiles, 2 pixels a side, one for each name.
fn palette_of(names: &[&str]) -> Palette {
    let mut candidates = Vec::new();
    for (i, name) in names.iter().enumerate() {
        let mut data = Vec::new();
        for _ in 0..4 {
            data.extend_from_slice(&[i as u8 * 10, 0, 0, 255]);
        }
        candidates.push(Candidate {
            file_name: format!("{}.png", name),
            image: RgbaImage::from_raw(2, 2, data).unwrap(),
        });
    }
    get_map(&candidates, 2)
}

#[test]
fn tally_counts_each_tile() {
    let map = palette_of(&["a", "b", "c", "d"]);
    let tally = tally_blocks(&map, &vec![3, 1, 1, 3, 3, 0, 3]);
    assert_eq!(tally.len(), 3);
    assert_eq!(tally.name(0), "a");
    assert_eq!(tally.count(0), 1);
    assert_eq!(tally.name(1), "b");
    assert_eq!(tally.count(1), 2);
    assert_eq!(tally.name(2), "d");
    assert_eq!(tally.count(2), 4);
    assert_eq!(tally.needed("a"), 1);
    assert_eq!(tally.needed("b"), 2);
    assert_eq!(tally.needed("c"), 0);
    assert_eq!(tally.needed("d"), 4);
    assert_eq!(tally.needed(""), 0);
    assert_eq!(tally.needed("e"), 0);
    let sum: u32 = (0..tally.len()).map(|k| tally.count(k)).sum();
    assert_eq!(sum, 7);
}

#[test]
fn tally_of_no_blocks_is_empty() {
    let map = palette_of(&["a", "b"]);
    let tally = tally_blocks(&map, &vec![]);
    assert_eq!(tally.len(), 0);
    assert_eq!(tally.needed("a"), 0);
    assert!(tally.report().is_empty());
    let tally = tally_blocks(&palette_of(&[]), &vec![]);
    assert_eq!(tally.len(), 0);
}

#[test]
fn report_lists_names_and_counts() {
    let map = palette_of(&["stone", "dirt", "sand"]);
    let tally = tally_blocks(&map, &vec![2, 2, 0, 2]);
    assert_eq!(tally.report(), vec![("stone".to_string(), 1), ("sand".to_string(), 3)]);
    let lines: Vec<String> =
        tally.report().iter().map(|(name, count)| format!("{name} : {count}")).collect();
    assert_eq!(lines.join("\n"), "stone : 1\nsand : 3");
}
