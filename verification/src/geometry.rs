// Display geometry shared by the pages: (0,0) is the top-left corner.
use vstd::prelude::*;

verus! {

/// Width and height of the square panel in pixels.
pub const RESOLUTION: u32 = 466;

/// Pixel coordinate of the panel centre on both axes.
pub const CENTER: i32 = 233;

/// The 5-, 6- and 5-bit red, green and blue components of a 24-bit colour.
pub fn rgb565_from_888(r: u8, g: u8, b: u8) -> (c: (u8, u8, u8))
    ensures
        c == ((r / 8) as u8, (g / 4) as u8, (b / 8) as u8),
{
    (r / 8, g / 4, b / 8)
}

} // verus!
