//! Pixel buffers: opaque RGB images and RGBA images that may be transparent.
//!
//! Both store their samples row by row, one byte per channel.

use vstd::prelude::*;
use image::imageops::FilterType;
use image::{ImageBuffer, Rgb};
use crate::color::Color;
use crate::resample::{ResampleFilter, MAX_SIDE};

verus! {

/// The sample `channel` of the `p`-th pixel, where a pixel has `stride` samples.
pub open spec fn sample(data: Seq<u8>, stride: int, channel: int, p: int) -> u8 {
    data[stride * p + channel]
}

/// Sum, over the first `n` pixels, of the sample `channel` of each pixel, where
/// a pixel has `stride` samples.
pub open spec fn channel_sum(data: Seq<u8>, stride: int, channel: int, n: nat) -> nat
    decreases n,
{
    if n == 0 {
        0
    } else {
        channel_sum(data, stride, channel, (n - 1) as nat) + sample(
            data,
            stride,
            channel,
            n - 1,
        ) as nat
    }
}

/// Mean of each color channel over the `n` pixels of `data`, rounded down.
pub open spec fn mean_color(data: Seq<u8>, stride: int, n: nat) -> Color {
    Color {
        r: (channel_sum(data, stride, 0, n) / n) as u8,
        g: (channel_sum(data, stride, 1, n) / n) as u8,
        b: (channel_sum(data, stride, 2, n) / n) as u8,
    }
}

/// What an [`Image`] holds: its size and its samples, three per pixel.
pub struct ImageView {
    pub width: nat,
    pub height: nat,
    pub data: Seq<u8>,
}

impl ImageView {
    /// There is exactly one red, one green and one blue sample per pixel.
    pub open spec fn wf(self) -> bool {
        self.data.len() == 3 * self.width * self.height
    }

    /// Number of pixels.
    pub open spec fn pixel_count(self) -> nat {
        self.width * self.height
    }

    /// The `p`-th pixel in row-major order.
    pub open spec fn pixel_at(self, p: int) -> Color {
        Color { r: self.data[3 * p], g: self.data[3 * p + 1], b: self.data[3 * p + 2] }
    }

    /// The pixel in column `x` of row `y`.
    pub open spec fn pixel(self, x: int, y: int) -> Color {
        self.pixel_at(y * self.width + x)
    }

    /// Mean of each channel over all pixels, rounded down.
    pub open spec fn mean_color(self) -> Color {
        mean_color(self.data, 3, self.pixel_count())
    }
}

/// What an [`RgbaImage`] holds: its size and its samples, four per pixel.
pub struct RgbaView {
    pub width: nat,
    pub height: nat,
    pub data: Seq<u8>,
}

impl RgbaView {
    /// There is exactly one red, green, blue and alpha sample per pixel.
    pub open spec fn wf(self) -> bool {
        self.data.len() == 4 * self.width * self.height
    }

    /// Number of pixels.
    pub open spec fn pixel_count(self) -> nat {
        self.width * self.height
    }

    /// Color of the `p`-th pixel in row-major order.
    pub open spec fn pixel_at(self, p: int) -> Color {
        Color { r: self.data[4 * p], g: self.data[4 * p + 1], b: self.data[4 * p + 2] }
    }

    /// Alpha sample of the `p`-th pixel in row-major order.
    pub open spec fn alpha_at(self, p: int) -> u8 {
        self.data[4 * p + 3]
    }

    /// Every pixel has the largest alpha value.
    pub open spec fn is_opaque(self) -> bool {
        forall|p: int| 0 <= p < self.pixel_count() ==> #[trigger] self.alpha_at(p) == 255
    }

    /// Mean of each color channel over all pixels, rounded down.
    pub open spec fn mean_color(self) -> Color {
        mean_color(self.data, 4, self.pixel_count())
    }

    /// The same picture without its alpha channel.
    pub open spec fn to_rgb(self) -> ImageView {
        ImageView {
            width: self.width,
            height: self.height,
            data: Seq::new(3 * self.pixel_count(), |i: int| self.data[4 * (i / 3) + i % 3]),
        }
    }
}

/// A sum of `n` samples is at most `n` times the largest sample.
pub proof fn lemma_channel_sum_bound(data: Seq<u8>, stride: int, channel: int, n: nat)
    ensures
        channel_sum(data, stride, channel, n) <= 255 * n,
    decreases n,
{
    if n > 0 {
        lemma_channel_sum_bound(data, stride, channel, (n - 1) as nat);
    }
}

/// Where every pixel has the sample `value` in a channel, the sum over `n`
/// pixels is `n` times `value`.
pub proof fn lemma_channel_sum_uniform(data: Seq<u8>, stride: int, channel: int, n: nat, value: u8)
    requires
        forall|p: int| 0 <= p < n ==> #[trigger] sample(data, stride, channel, p) == value,
    ensures
        channel_sum(data, stride, channel, n) == n * value,
    decreases n,
{
    if n > 0 {
        let m = (n - 1) as nat;
        lemma_channel_sum_uniform(data, stride, channel, m, value);
        assert(sample(data, stride, channel, n - 1) == value);
        assert(channel_sum(data, stride, channel, n) == channel_sum(data, stride, channel, m)
            + value);
        assert(m * value + value == n * value) by (nonlinear_arith)
            requires
                m + 1 == n,
        ;
    } else {
        assert(n * value == 0) by (nonlinear_arith)
            requires
                n == 0,
        ;
    }
}

/// A picture whose pixels all have the color `c` has the mean color `c`.
pub proof fn lemma_uniform_mean(img: RgbaView, c: Color)
    requires
        img.wf(),
        img.pixel_count() > 0,
        forall|p: int| 0 <= p < img.pixel_count() ==> #[trigger] img.pixel_at(p) == c,
    ensures
        img.mean_color() == c,
{
    let n = img.pixel_count();
    assert forall|p: int| 0 <= p < n implies #[trigger] sample(img.data, 4, 0, p) == c.r by {
        assert(img.pixel_at(p) == c);
    }
    assert forall|p: int| 0 <= p < n implies #[trigger] sample(img.data, 4, 1, p) == c.g by {
        assert(img.pixel_at(p) == c);
    }
    assert forall|p: int| 0 <= p < n implies #[trigger] sample(img.data, 4, 2, p) == c.b by {
        assert(img.pixel_at(p) == c);
    }
    lemma_channel_sum_uniform(img.data, 4, 0, n, c.r);
    lemma_channel_sum_uniform(img.data, 4, 1, n, c.g);
    lemma_channel_sum_uniform(img.data, 4, 2, n, c.b);
    lemma_mean_of_multiple(n, c.r);
    lemma_mean_of_multiple(n, c.g);
    lemma_mean_of_multiple(n, c.b);
}

/// `n` times `value`, divided by `n`, is `value`.
proof fn lemma_mean_of_multiple(n: nat, value: u8)
    requires
        n > 0,
    ensures
        (n * value as nat) / n == value,
{
    vstd::arithmetic::div_mod::lemma_div_multiples_vanish(value as int, n as int);
    assert(n * value as nat == (n as int) * (value as int)) by (nonlinear_arith);
}

/// Dropping the alpha channel keeps the color of every pixel.
pub proof fn lemma_to_rgb_pixels(img: RgbaView)
    requires
        img.wf(),
    ensures
        img.to_rgb().wf(),
        forall|p: int|
            0 <= p < img.pixel_count() ==> #[trigger] img.to_rgb().pixel_at(p) == img.pixel_at(p),
{
    let n = img.pixel_count();
    assert(3 * img.width * img.height == 3 * (img.width * img.height)) by (nonlinear_arith);
}

/// Dropping the alpha channel keeps the sum of every color channel.
proof fn lemma_to_rgb_sum(img: RgbaView, channel: int, n: nat)
    requires
        img.wf(),
        0 <= channel < 3,
        n <= img.pixel_count(),
    ensures
        channel_sum(img.to_rgb().data, 3, channel, n) == channel_sum(img.data, 4, channel, n),
    decreases n,
{
    if n > 0 {
        lemma_to_rgb_sum(img, channel, (n - 1) as nat);
        let i = 3 * (n - 1) + channel;
        assert(i / 3 == n - 1 && i % 3 == channel);
    }
}

/// Dropping the alpha channel keeps the mean color.
pub proof fn lemma_to_rgb_mean(img: RgbaView)
    requires
        img.wf(),
    ensures
        img.to_rgb().mean_color() == img.mean_color(),
{
    let n = img.pixel_count();
    lemma_to_rgb_sum(img, 0, n);
    lemma_to_rgb_sum(img, 1, n);
    lemma_to_rgb_sum(img, 2, n);
}

/// Row-major index of the pixel in column `x` of row `y` lies inside the image.
pub proof fn lemma_pixel_index(width: nat, height: nat, x: int, y: int)
    requires
        0 <= x < width,
        0 <= y < height,
    ensures
        0 <= y * width + x < width * height,
{
    assert(0 <= y * width) by (nonlinear_arith)
        requires
            0 <= y,
            0 <= width,
    ;
    assert(y * width + width <= height * width) by (nonlinear_arith)
        requires
            y + 1 <= height,
            0 <= width,
    ;
    assert(height * width == width * height) by (nonlinear_arith);
}

/// Number of samples in an image of the given size with `channels` samples per pixel.
fn sample_count(channels: u8, width: u32, height: u32) -> (n: u128)
    ensures
        n == channels * width * height,
{
    assert(channels * width * height <= 255 * 0xffff_ffff * 0xffff_ffff) by (nonlinear_arith)
        requires
            0 <= channels <= 255,
            0 <= width <= 0xffff_ffff,
            0 <= height <= 0xffff_ffff,
    ;
    assert(channels * width <= 255 * 0xffff_ffff) by (nonlinear_arith)
        requires
            0 <= channels <= 255,
            0 <= width <= 0xffff_ffff,
    ;
    (channels as u128) * (width as u128) * (height as u128)
}

/// An opaque RGB image.
#[derive(Debug)]
pub struct Image {
    width: u32,
    height: u32,
    data: Vec<u8>,
}

impl View for Image {
    type V = ImageView;

    closed spec fn view(&self) -> ImageView {
        ImageView { width: self.width as nat, height: self.height as nat, data: self.data@ }
    }
}

impl Image {
    /// Makes an image of the given size from its samples.
    ///
    /// Returns `None` unless there are exactly three samples per pixel.
    pub fn from_raw(width: u32, height: u32, data: Vec<u8>) -> (r: Option<Image>)
        ensures
            r is Some <==> data@.len() == 3 * width * height,
            r matches Some(img) ==> img@ == (ImageView {
                width: width as nat,
                height: height as nat,
                data: data@,
            }),
    {
        let need = sample_count(3, width, height);
        if data.len() as u128 == need {
            Some(Image { width, height, data })
        } else {
            None
        }
    }

    /// Width in pixels.
    pub fn width(&self) -> (w: u32)
        ensures
            w == self@.width,
    {
        self.width
    }

    /// Height in pixels.
    pub fn height(&self) -> (h: u32)
        ensures
            h == self@.height,
    {
        self.height
    }

    /// The samples, row by row.
    pub fn as_raw(&self) -> (data: &Vec<u8>)
        ensures
            data@ == self@.data,
    {
        &self.data
    }

    /// Gives up the image for its samples.
    pub fn into_raw(self) -> (data: Vec<u8>)
        ensures
            data@ == self@.data,
    {
        self.data
    }

    /// Number of pixels.
    pub fn pixel_count(&self) -> (n: usize)
        requires
            self@.wf(),
        ensures
            n == self@.pixel_count(),
            3 * n == self@.data.len(),
    {
        proof {
            let w = self@.width;
            let h = self@.height;
            assert(3 * w * h == 3 * (w * h)) by (nonlinear_arith);
        }
        self.data.len() / 3
    }

    /// The `p`-th pixel in row-major order.
    pub fn pixel_at(&self, p: usize) -> (c: Color)
        requires
            self@.wf(),
            p < self@.pixel_count(),
        ensures
            c == self@.pixel_at(p as int),
    {
        proof {
            let w = self@.width;
            let h = self@.height;
            assert(3 * w * h == 3 * (w * h)) by (nonlinear_arith);
            assert(self.data@.len() == self.data.len());
        }
        Color { r: self.data[3 * p], g: self.data[3 * p + 1], b: self.data[3 * p + 2] }
    }

    /// The pixel in column `x` of row `y`.
    pub fn get_pixel(&self, x: u32, y: u32) -> (c: Color)
        requires
            self@.wf(),
            x < self@.width,
            y < self@.height,
        ensures
            c == self@.pixel(x as int, y as int),
    {
        proof {
            lemma_pixel_index(self@.width, self@.height, x as int, y as int);
            let w = self@.width;
            let h = self@.height;
            assert(3 * w * h == 3 * (w * h)) by (nonlinear_arith);
            assert(0 <= y * w) by (nonlinear_arith)
                requires
                    0 <= y,
                    0 <= w,
            ;
            assert(self.data@.len() == self.data.len());
        }
        let p = y as usize * self.width as usize + x as usize;
        self.pixel_at(p)
    }
}

/// Whether `top`, with its corner put at (`x`, `y`), lies over the pixel (`px`, `py`).
pub open spec fn covers(top: ImageView, x: int, y: int, px: int, py: int) -> bool {
    x <= px < x + top.width && y <= py < y + top.height
}

/// The samples that `image::imageops::resize` computes with the nearest-neighbour
/// or the linear filter (`linear`) from the samples `data` of an RGB image of
/// `width` by `height` pixels, for a target of `new_width` by `new_height` pixels.
pub uninterp spec fn resampled(
    data: Seq<u8>,
    width: nat,
    height: nat,
    new_width: nat,
    new_height: nat,
    linear: bool,
) -> Seq<u8>;

/// Calls `image::ImageBuffer::new` for an RGB image with 8-bit samples.
///
/// Trusted: the new image has the given size and all its samples are zero. The
/// outside function panics when the samples do not fit in a vector, which
/// `requires` rules out.
#[verifier::external_body]
pub(crate) fn blank(width: u32, height: u32) -> (img: Image)
    requires
        3 * width * height <= isize::MAX,
    ensures
        img@.width == width,
        img@.height == height,
        img@.wf(),
        forall|i: int| 0 <= i < img@.data.len() ==> img@.data[i] == 0,
{
    Image { width, height, data: ImageBuffer::<Rgb<u8>, Vec<u8>>::new(width, height).into_raw() }
}

/// Calls `image::imageops::overlay` to put `top` on `bottom`, with the upper left
/// corner of `top` at (`x`, `y`).
///
/// Trusted: `bottom` keeps its size; each of its pixels that `top` covers takes the
/// color of the pixel of `top` above it, and no other pixel changes. RGB pixels
/// have no alpha channel, so the outside function blends nothing. Where `top`
/// reaches over an edge of `bottom`, the part outside is dropped.
#[verifier::external_body]
pub(crate) fn overlay(bottom: &mut Image, top: &Image, x: u32, y: u32)
    requires
        old(bottom)@.wf(),
        top@.wf(),
    ensures
        final(bottom)@.width == old(bottom)@.width,
        final(bottom)@.height == old(bottom)@.height,
        final(bottom)@.wf(),
        forall|px: int, py: int|
            0 <= px < old(bottom)@.width && 0 <= py < old(bottom)@.height
                ==> #[trigger] final(bottom)@.pixel(px, py) == if covers(
                top@,
                x as int,
                y as int,
                px,
                py,
            ) {
                top@.pixel(px - x, py - y)
            } else {
                old(bottom)@.pixel(px, py)
            },
{
    let below = std::mem::take(&mut bottom.data);
    let mut below = ImageBuffer::<Rgb<u8>, Vec<u8>>::from_raw(bottom.width, bottom.height, below)
        .unwrap();
    let above = ImageBuffer::<Rgb<u8>, &[u8]>::from_raw(top.width, top.height, top.data.as_slice())
        .unwrap();
    image::imageops::overlay(&mut below, &above, x as i64, y as i64);
    bottom.data = below.into_raw();
}

/// Calls `image::imageops::resize` to scale `source` to `new_width` by `new_height`
/// pixels.
///
/// Trusted: the result has the size asked for. With the nearest-neighbour and the
/// linear filter its samples are a function of the arguments, named [`resampled`];
/// the cubic filter raises numbers to a power, which std does not promise to round
/// in one way everywhere, so its samples are left open. The outside function
/// computes positions in single precision and allocates rows of four 32-bit
/// samples per pixel: `requires` keeps to sides up to [`MAX_SIDE`], for which
/// the positions are right to a fraction of a pixel, and to sizes that can be
/// allocated, so that it does not panic.
#[verifier::external_body]
pub(crate) fn resize(
    source: &Image,
    new_width: u32,
    new_height: u32,
    filter: ResampleFilter,
) -> (out: Image)
    requires
        source@.wf(),
        source@.width <= MAX_SIDE,
        source@.height <= MAX_SIDE,
        new_width <= MAX_SIDE,
        new_height <= MAX_SIDE,
        16 * source@.width * new_height <= isize::MAX,
        3 * new_width * new_height <= isize::MAX,
    ensures
        out@.width == new_width,
        out@.height == new_height,
        out@.wf(),
        filter != ResampleFilter::Cubic ==> out@.data == resampled(
            source@.data,
            source@.width,
            source@.height,
            new_width as nat,
            new_height as nat,
            filter == ResampleFilter::Linear,
        ),
{
    let kind = match filter {
        ResampleFilter::Nearest => FilterType::Nearest,
        ResampleFilter::Linear => FilterType::Triangle,
        ResampleFilter::Cubic => FilterType::CatmullRom,
    };
    let view = ImageBuffer::<Rgb<u8>, &[u8]>::from_raw(
        source.width,
        source.height,
        source.data.as_slice(),
    ).unwrap();
    let data = image::imageops::resize(&view, new_width, new_height, kind).into_raw();
    Image { width: new_width, height: new_height, data }
}

/// An RGBA image: colors with an alpha channel.
#[derive(Debug)]
pub struct RgbaImage {
    width: u32,
    height: u32,
    data: Vec<u8>,
}

impl View for RgbaImage {
    type V = RgbaView;

    closed spec fn view(&self) -> RgbaView {
        RgbaView { width: self.width as nat, height: self.height as nat, data: self.data@ }
    }
}

impl RgbaImage {
    /// Makes an image of the given size from its samples.
    ///
    /// Returns `None` unless there are exactly four samples per pixel.
    pub fn from_raw(width: u32, height: u32, data: Vec<u8>) -> (r: Option<RgbaImage>)
        ensures
            r is Some <==> data@.len() == 4 * width * height,
            r matches Some(img) ==> img@ == (RgbaView {
                width: width as nat,
                height: height as nat,
                data: data@,
            }),
    {
        let need = sample_count(4, width, height);
        if data.len() as u128 == need {
            Some(RgbaImage { width, height, data })
        } else {
            None
        }
    }

    /// Width in pixels.
    pub fn width(&self) -> (w: u32)
        ensures
            w == self@.width,
    {
        self.width
    }

    /// Height in pixels.
    pub fn height(&self) -> (h: u32)
        ensures
            h == self@.height,
    {
        self.height
    }

    /// The samples, row by row.
    pub fn as_raw(&self) -> (data: &Vec<u8>)
        ensures
            data@ == self@.data,
    {
        &self.data
    }

    /// Number of pixels.
    pub fn pixel_count(&self) -> (n: usize)
        requires
            self@.wf(),
        ensures
            n == self@.pixel_count(),
            4 * n == self@.data.len(),
    {
        proof {
            let w = self@.width;
            let h = self@.height;
            assert(4 * w * h == 4 * (w * h)) by (nonlinear_arith);
        }
        self.data.len() / 4
    }
}

/// Get average color value of an image
///
/// Returns `None` if any pixel is not opaque
pub fn img_average(img: &RgbaImage) -> (average: Option<Color>)
    requires
        img@.wf(),
        img@.pixel_count() > 0,
    ensures
        average == if img@.is_opaque() {
            Some(img@.mean_color())
        } else {
            None
        },
{
    let count = img.pixel_count();
    let data = img.as_raw();
    let len = data.len();
    let ghost samples = img@.data;
    // Accumulator of average values
    let mut red: u128 = 0;
    let mut green: u128 = 0;
    let mut blue: u128 = 0;

    // Loop pixels
    let mut p: usize = 0;
    while p < count
        invariant
            p <= count,
            count == img@.pixel_count(),
            data@ == samples,
            samples == img@.data,
            len == 4 * count,
            len == samples.len(),
            forall|q: int| 0 <= q < p ==> #[trigger] img@.alpha_at(q) == 255,
            red == channel_sum(samples, 4, 0, p as nat),
            green == channel_sum(samples, 4, 1, p as nat),
            blue == channel_sum(samples, 4, 2, p as nat),
        decreases count - p,
    {
        // Return `None` if pixel is not opaque
        if data[4 * p + 3] < 255 {
            assert(img@.alpha_at(p as int) != 255);
            return None;
        }
        proof {
            lemma_channel_sum_bound(samples, 4, 0, p as nat);
            lemma_channel_sum_bound(samples, 4, 1, p as nat);
            lemma_channel_sum_bound(samples, 4, 2, p as nat);
        }

        // Add rgb values to accumulator
        red += data[4 * p] as u128;
        green += data[4 * p + 1] as u128;
        blue += data[4 * p + 2] as u128;
        p += 1;
    }

    // Divide rgb values to find average
    proof {
        lemma_channel_sum_bound(samples, 4, 0, count as nat);
        lemma_channel_sum_bound(samples, 4, 1, count as nat);
        lemma_channel_sum_bound(samples, 4, 2, count as nat);
        lemma_mean_bound(red as nat, count as nat);
        lemma_mean_bound(green as nat, count as nat);
        lemma_mean_bound(blue as nat, count as nat);
    }
    let n = count as u128;
    Some(Color { r: (red / n) as u8, g: (green / n) as u8, b: (blue / n) as u8 })
}

/// The mean of `n` samples is a sample.
proof fn lemma_mean_bound(sum: nat, n: nat)
    requires
        n > 0,
        sum <= 255 * n,
    ensures
        sum / n <= 255,
{
    assert(sum / n <= 255) by (nonlinear_arith)
        requires
            n > 0,
            sum <= 255 * n,
    ;
}

/// Convert `Rgba` image buffer to `Rgb`
pub fn rgba8_to_rgb8(input: &RgbaImage) -> (output: Image)
    requires
        input@.wf(),
    ensures
        output@ == input@.to_rgb(),
{
    let count = input.pixel_count();
    let data = input.as_raw();
    let len = data.len();
    let ghost samples = input@.data;
    let ghost rgb = input@.to_rgb().data;

    // Allocate a new buffer for the RGB image, 3 bytes per pixel
    let mut output_data: Vec<u8> = Vec::with_capacity(3 * count);

    // Go through the pixels of the image data (RGBA bytes)
    let mut p: usize = 0;
    while p < count
        invariant
            p <= count,
            count == input@.pixel_count(),
            data@ == samples,
            samples == input@.data,
            len == 4 * count,
            len == samples.len(),
            rgb == input@.to_rgb().data,
            rgb.len() == 3 * count,
            output_data@ == rgb.take(3 * p),
        decreases count - p,
    {
        // ... and copy each of them to output, leaving out the A byte
        let ghost copied = output_data@;
        output_data.push(data[4 * p]);
        output_data.push(data[4 * p + 1]);
        output_data.push(data[4 * p + 2]);
        proof {
            let i = 3 * p as int;
            assert(i / 3 == p && i % 3 == 0);
            assert((i + 1) / 3 == p && (i + 1) % 3 == 1);
            assert((i + 2) / 3 == p && (i + 2) % 3 == 2);
            assert(rgb[i] == samples[4 * p]);
            assert(rgb[i + 1] == samples[4 * p + 1]);
            assert(rgb[i + 2] == samples[4 * p + 2]);
            assert(output_data@ == copied.push(rgb[i]).push(rgb[i + 1]).push(rgb[i + 2]));
            assert(rgb.take(i + 3) == rgb.take(i).push(rgb[i]).push(rgb[i + 1]).push(rgb[i + 2]));
        }
        p += 1;
    }
    assert(rgb.take(3 * count) == rgb);

    // Construct a new image
    Image { width: input.width, height: input.height, data: output_data }
}

} // verus!
