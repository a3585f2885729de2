//! Scaling a picture down to the grid of blocks of a mosaic.

use vstd::prelude::*;
use crate::mosaic::MosaicError;
use crate::raster::{resampled, resize, Image, ImageView};

verus! {

/// Longest side, in pixels, of a picture that can be scaled and of its result.
pub const MAX_SIDE: u32 = 1_048_576;

/// How the colors of a scaled picture are taken from the picture it is made of.
#[derive(Clone, Copy, Debug, PartialEq, Eq, Structural)]
pub enum ResampleFilter {
    /// Each pixel takes the color of the nearest pixel of the source: crisp blocks.
    Nearest,
    /// Each pixel is a linear blend of the pixels of the source around it.
    Linear,
    /// Each pixel is a cubic (Catmull-Rom) blend of the pixels of the source around it.
    Cubic,
}

impl Default for ResampleFilter {
    fn default() -> (filter: ResampleFilter)
        ensures
            filter == ResampleFilter::Nearest,
    {
        ResampleFilter::Nearest
    }
}

/// Height that keeps the proportions of a `source_width` by `source_height`
/// picture scaled to `width`, rounded down.
pub open spec fn spec_target_height(width: nat, source_width: nat, source_height: nat) -> nat {
    (width * source_height) / source_width
}

/// Whether a `source_width` by `source_height` picture can be scaled to `width`:
/// no side is over [`MAX_SIDE`], and the rows that the scaling works on and the
/// result can be allocated.
pub open spec fn resample_fits(width: nat, source_width: nat, source_height: nat) -> bool {
    let height = spec_target_height(width, source_width, source_height);
    &&& source_width <= MAX_SIDE
    &&& source_height <= MAX_SIDE
    &&& width <= MAX_SIDE
    &&& height <= MAX_SIDE
    &&& 16 * source_width * height <= isize::MAX
    &&& 3 * width * height <= isize::MAX
}

/// What [`resample`] returns for `source`, `width` and `filter`: a picture
/// `width` wide whose height keeps the proportions. With every filter but the
/// cubic one its samples are those named by [`resampled`].
pub open spec fn is_resampling(
    proxy: ImageView,
    source: ImageView,
    width: nat,
    filter: ResampleFilter,
) -> bool {
    &&& proxy.wf()
    &&& proxy.width == width
    &&& proxy.height == spec_target_height(width, source.width, source.height)
    &&& filter != ResampleFilter::Cubic ==> proxy.data == resampled(
        source.data,
        source.width,
        source.height,
        proxy.width,
        proxy.height,
        filter == ResampleFilter::Linear,
    )
}

/// Height that keeps the proportions of a `source_width` by `source_height`
/// picture scaled to `width`, rounded down.
pub fn target_height(width: u32, source_width: u32, source_height: u32) -> (height: u64)
    requires
        source_width > 0,
    ensures
        height == spec_target_height(width as nat, source_width as nat, source_height as nat),
{
    assert(width * source_height <= 0xffff_ffff * 0xffff_ffff) by (nonlinear_arith)
        requires
            0 <= width <= 0xffff_ffff,
            0 <= source_height <= 0xffff_ffff,
    ;
    (width as u64 * source_height as u64) / (source_width as u64)
}

/// Whether a `source_width` by `source_height` picture can be scaled to `width`.
pub fn can_resample(width: u32, source_width: u32, source_height: u32) -> (fits: bool)
    requires
        source_width > 0,
    ensures
        fits == resample_fits(width as nat, source_width as nat, source_height as nat),
{
    let height = target_height(width, source_width, source_height);
    if source_width > MAX_SIDE || source_height > MAX_SIDE || width > MAX_SIDE || height
        > MAX_SIDE as u64 {
        return false;
    }
    assert(16 * source_width * height <= 16 * 1_048_576 * 1_048_576) by (nonlinear_arith)
        requires
            0 <= source_width <= 1_048_576,
            0 <= height <= 1_048_576,
    ;
    assert(3 * width * height <= 3 * 1_048_576 * 1_048_576) by (nonlinear_arith)
        requires
            0 <= width <= 1_048_576,
            0 <= height <= 1_048_576,
    ;
    let limit = isize::MAX as u64;
    16 * (source_width as u64) * height <= limit && 3 * (width as u64) * height <= limit
}

/// Scales `source` to `width` pixels across, keeping its proportions.
///
/// Fails if the picture is too flat for that width: no row would be left.
pub fn resample(source: &Image, width: u32, filter: ResampleFilter) -> (r: Result<
    Image,
    MosaicError,
>)
    requires
        source@.wf(),
        source@.width > 0,
        resample_fits(width as nat, source@.width, source@.height),
    ensures
        r is Err <==> spec_target_height(width as nat, source@.width, source@.height) == 0,
        r matches Err(e) ==> e == MosaicError::InvalidResampleTarget,
        r matches Ok(proxy) ==> is_resampling(proxy@, source@, width as nat, filter),
{
    let height = target_height(width, source.width(), source.height());
    if height == 0 {
        return Err(MosaicError::InvalidResampleTarget);
    }
    Ok(resize(source, width, height as u32, filter))
}

} // verus!
