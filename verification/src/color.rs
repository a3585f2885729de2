//! Colors and the distance between them.

use vstd::prelude::*;

verus! {

/// An opaque color of three 8-bit channels.
#[derive(Clone, Copy, Debug, PartialEq, Eq, Structural)]
pub struct Color {
    pub r: u8,
    pub g: u8,
    pub b: u8,
}

/// Absolute difference of two channel values.
pub open spec fn channel_distance(a: u8, b: u8) -> nat {
    if a >= b {
        (a - b) as nat
    } else {
        (b - a) as nat
    }
}

/// Distance of two colors: the absolute differences of their channels, added up.
pub open spec fn color_distance(a: Color, b: Color) -> nat {
    channel_distance(a.r, b.r) + channel_distance(a.g, b.g) + channel_distance(a.b, b.b)
}

/// Get absolute difference between 2 color components
pub fn color_comp_diff(a: u8, b: u8) -> (d: u32)
    ensures
        d == channel_distance(a, b),
{
    if a >= b {
        (a - b) as u32
    } else {
        (b - a) as u32
    }
}

/// Get absolute difference between 2 colors
///
/// The channel differences are summed, not averaged: dividing by 3 would
/// not change which of two distances is smaller.
pub fn color_diff(a: &Color, b: &Color) -> (d: u32)
    ensures
        d == color_distance(*a, *b),
        d <= 765,
{
    color_comp_diff(a.r, b.r) + color_comp_diff(a.g, b.g) + color_comp_diff(a.b, b.b)
}

/// The distance does not depend on the order of the two colors.
pub proof fn color_distance_symmetric(a: Color, b: Color)
    ensures
        color_distance(a, b) == color_distance(b, a),
{
}

/// A color is at distance 0 from itself.
pub proof fn color_distance_self_is_zero(a: Color)
    ensures
        color_distance(a, a) == 0,
{
}

/// Only equal colors are at distance 0.
pub proof fn color_distance_zero_means_equal(a: Color, b: Color)
    requires
        color_distance(a, b) == 0,
    ensures
        a == b,
{
}

} // verus!
