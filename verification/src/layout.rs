//! The integer geometry of image processing: where a resized image is
//! placed on the screen, and the size of the background that BlurPad
//! blurs. The pixels themselves (resizing, blurring, darkening) are the
//! daemon's, with floating-point arithmetic.

use vstd::prelude::*;

verus! {

/// The background is blurred at this fraction of the screen size.
pub const DOWNSCALE: u32 = 4;

/// The offset at which an image of `w`×`h` is placed to be centered on a
/// screen of `screen_w`×`screen_h` (0 on a side where it does not fit).
pub fn center_offset(screen_w: u32, screen_h: u32, w: u32, h: u32) -> (o: (i64, i64))
    ensures
        o.0 == (if screen_w > w {
            (screen_w - w) / 2
        } else {
            0
        }),
        o.1 == (if screen_h > h {
            (screen_h - h) / 2
        } else {
            0
        }),
{
    let x = if screen_w > w {
        (screen_w - w) / 2
    } else {
        0
    };
    let y = if screen_h > h {
        (screen_h - h) / 2
    } else {
        0
    };
    (x as i64, y as i64)
}

/// The size at which BlurPad blurs the background: a quarter of the
/// screen on each side, at least one pixel.
pub fn blur_canvas_size(screen_w: u32, screen_h: u32) -> (s: (u32, u32))
    requires
        screen_w > 0,
        screen_h > 0,
    ensures
        s.0 == (if screen_w / DOWNSCALE < 1 {
            1
        } else {
            screen_w / DOWNSCALE
        }),
        s.1 == (if screen_h / DOWNSCALE < 1 {
            1
        } else {
            screen_h / DOWNSCALE
        }),
{
    let w = screen_w / DOWNSCALE;
    let h = screen_h / DOWNSCALE;
    (if w < 1 {
        1
    } else {
        w
    }, if h < 1 {
        1
    } else {
        h
    })
}

/// A centered image that fits lies within the screen, with the same
/// margin on both sides up to one pixel.
pub proof fn lemma_centered_within(screen: u32, size: u32)
    requires
        size <= screen,
    ensures
        ({
            let off = (screen - size) / 2;
            &&& off + size <= screen
            &&& (screen - size - off) - off <= 1
        }),
{
}

} // verus!
