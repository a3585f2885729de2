//! Mosaics of texture tiles.
//!
//! A picture is scaled down to a grid of blocks, each block is matched with
//! the tile whose average color is nearest to it, and the chosen tiles are
//! laid out on a canvas. The library also counts how often each tile is used.

pub mod args;
pub mod catalog;
pub mod color;
pub mod mosaic;
pub mod palette;
pub mod pattern;
pub mod raster;
pub mod resample;
pub mod tally;
pub mod text;

pub use crate::catalog::get_map;
pub use crate::mosaic::{make_img, BLOCK_RES};
pub use crate::palette::Palette;
pub use crate::raster::Image;
