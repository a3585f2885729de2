use mcimg::catalog::{get_map, Candidate};
use mcimg::color::{color_diff, Color};
use mcimg::raster::RgbaImage;
use mcimg::Palette;

fn rgb(r: u8, g: u8, b: u8) -> Color {
    Color { r, g, b }
}

/// A palette of uniform tiles, 2 pixels a side, one for each name and color.
fn palette_of(tiles: &[(&str, [u8; 3])]) -> Palette {
    let mut candidates = Vec::new();
    for (name, color) in tiles {
        let mut data = Vec::new();
        for _ in 0..4 {
            data.extend_from_slice(color);
            data.push(255);
        }
        candidates.push(Candidate {
            file_name: format!("{}.png", name),
            image: RgbaImage::from_raw(2, 2, data).unwrap(),
        });
    }
    get_map(&candidates, 2)
}

#[test]
fn new_palette_is_empty() {
    let map = Palette::new(16);
    assert_eq!(map.resolution(), 16);
    assert_eq!(map.len(), 0);
    assert!(map.is_empty());
    assert_eq!(map.best_match(&rgb(1, 2, 3)), None);
}

#[test]
fn best_match_of_an_empty_palette_is_none() {
    let map = palette_of(&[]);
    assert_eq!(map.best_match(&rgb(0, 0, 0)), None);
    assert_eq!(map.best_match(&rgb(255, 255, 255)), None);
}

#[test]
fn best_match_is_the_nearest_color() {
    let map = palette_of(&[("red", [255, 0, 0]), ("blue", [0, 0, 255])]);
    // 75 from red, 455 from blue
    assert_eq!(map.best_match(&rgb(200, 10, 10)), Some(0));
    assert_eq!(map.tile(0).name(), "red");
    assert_eq!(map.best_match(&rgb(10, 10, 200)), Some(1));
    assert_eq!(map.tile(1).name(), "blue");
    assert_eq!(map.best_match(&rgb(255, 0, 0)), Some(0));
    assert_eq!(map.best_match(&rgb(0, 0, 255)), Some(1));
}

#[test]
fn best_match_of_one_tile_is_that_tile() {
    let map = palette_of(&[("only", [1, 2, 3])]);
    assert_eq!(map.best_match(&rgb(255, 255, 255)), Some(0));
    assert_eq!(map.best_match(&rgb(0, 0, 0)), Some(0));
}

#[test]
fn best_match_takes_the_first_of_equally_near_tiles() {
    let map = palette_of(&[("dark", [100, 100, 100]), ("light", [120, 120, 120])]);
    // 30 from either
    assert_eq!(map.best_match(&rgb(110, 110, 110)), Some(0));
    let map = palette_of(&[("light", [120, 120, 120]), ("dark", [100, 100, 100])]);
    assert_eq!(map.best_match(&rgb(110, 110, 110)), Some(0));
    assert_eq!(map.tile(0).name(), "light");
    // later tile wins only if it is strictly nearer
    assert_eq!(map.best_match(&rgb(109, 110, 110)), Some(1));
}

#[test]
fn best_match_is_never_farther_than_another_tile() {
    let tiles = [
        ("a", [0, 0, 0]),
        ("b", [255, 255, 255]),
        ("c", [255, 0, 0]),
        ("d", [0, 255, 0]),
        ("e", [0, 0, 255]),
        ("f", [128, 128, 128]),
        ("g", [200, 10, 10]),
        ("h", [64, 200, 30]),
    ];
    let map = palette_of(&tiles);
    assert_eq!(map.len(), tiles.len());
    for r in (0..=255u16).step_by(51) {
        for g in (0..=255u16).step_by(51) {
            for b in (0..=255u16).step_by(51) {
                let color = rgb(r as u8, g as u8, b as u8);
                let best = map.best_match(&color).unwrap();
                let least = color_diff(&map.tile(best).color(), &color);
                for i in 0..map.len() {
                    let other = color_diff(&map.tile(i).color(), &color);
                    assert!(least <= other);
                    if i < best {
                        assert!(least < other);
                    }
                }
            }
        }
    }
}
