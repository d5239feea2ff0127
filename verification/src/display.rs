//! Display abstractions: the operations every display offers and the
//! segment layout used to aim text at one region of a graphics display.

use vstd::prelude::*;

verus! {

/// A region of a display that text or graphics can be aimed at: one of the
/// four quadrants, or a window of the same size centered on the display.
#[derive(Clone, Copy, Debug, PartialEq, Eq, Structural)]
pub enum DisplaySegment {
    TopLeft,
    TopRight,
    BottomLeft,
    BottomRight,
    Center,
}

/// Basic operations every display offers.
pub trait Display {
    /// Sets a single pixel at the given coordinates.
    fn set_pixel(&mut self, x: usize, y: usize);

    /// Writes a string at the display's current position.
    fn write_str(&mut self, text: &str);

    /// Resets the display to a blank state.
    fn reset(&mut self);
}

/// The corner and size of the area a segment occupies on a display of
/// `width` by `height` pixels, as `(x, y, w, h)`. Every segment is half the
/// display wide and half the display tall: the quadrants take one corner
/// each, the center segment starts a quarter of the way in on both axes.
pub fn segment_area(width: u32, height: u32, segment: DisplaySegment) -> (r: (u32, u32, u32, u32))
    ensures
        r == (match segment {
            DisplaySegment::TopLeft => (0u32, 0u32, width / 2, height / 2),
            DisplaySegment::TopRight => (width / 2, 0u32, width / 2, height / 2),
            DisplaySegment::BottomLeft => (0u32, height / 2, width / 2, height / 2),
            DisplaySegment::BottomRight => (width / 2, height / 2, width / 2, height / 2),
            DisplaySegment::Center => (width / 4, height / 4, width / 2, height / 2),
        }),
{
    let w = width / 2;
    let h = height / 2;
    match segment {
        DisplaySegment::TopLeft => (0, 0, w, h),
        DisplaySegment::TopRight => (w, 0, w, h),
        DisplaySegment::BottomLeft => (0, h, w, h),
        DisplaySegment::BottomRight => (w, h, w, h),
        DisplaySegment::Center => (width / 4, height / 4, w, h),
    }
}

} // verus!
