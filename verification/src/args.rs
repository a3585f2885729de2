//! What a run is asked to do.

use vstd::prelude::*;

verus! {

/// The arguments of one conversion.
#[derive(Debug)]
pub struct McImgArgs {
    /// Path of image to convert
    pub input: String,
    /// Path of image to output
    pub output: String,
    /// Width of output image, in blocks (1 block = 16*16 pixels)
    pub width: u32,
    /// Path of textures directory
    pub textures: String,
    /// Path of file of blacklisted blocks
    /// Use `-` to ignore (default)
    pub blacklist: String,
    /// Path of file of required materials
    /// Use `-` to ignore (default)
    pub materials: String,
}

} // verus!
