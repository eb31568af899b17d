//! Decode-task arithmetic: the target dimensions for resampling a decoded
//! image down to the display cap, preserving aspect ratio and fitting the long
//! axis to the cap. The pixel work itself (file open, decode, resample) is
//! outside work; only its dimension decision lives here.

use vstd::prelude::*;

verus! {

/// Display cap: a decoded image wider than this is resampled down.
pub const DISPLAY_CAP_WIDTH: u32 = 1600;

/// Display cap: a decoded image taller than this is resampled down.
pub const DISPLAY_CAP_HEIGHT: u32 = 900;

/// Whether dimensions already fit the display cap, so no resampling is needed.
pub open spec fn fits_display(width: int, height: int) -> bool {
    width <= DISPLAY_CAP_WIDTH && height <= DISPLAY_CAP_HEIGHT
}

/// The width-constrained axis is the tight one: the image is at least as wide,
/// relative to the cap, as it is tall.
pub open spec fn width_is_long_axis(width: int, height: int) -> bool {
    DISPLAY_CAP_HEIGHT * width >= DISPLAY_CAP_WIDTH * height
}

/// The axis that follows the aspect ratio when the other lands on `cap`:
/// `floor(cap * other / long)`, but never below one pixel, so that an extreme
/// aspect ratio cannot produce a zero-sized resample target.
pub open spec fn follow_axis(cap: int, other: int, long: int) -> int {
    let scaled = (cap * other) / long;
    if scaled >= 1 {
        scaled
    } else {
        1
    }
}

/// Target dimensions for display: unchanged when the image fits the cap;
/// otherwise scaled down so the relatively longer axis lands exactly on its
/// cap and the other follows the aspect ratio (rounding down, clamped to at
/// least one pixel). Both results are always at least 1 and within the cap.
pub fn fit_dimensions(width: u32, height: u32) -> (r: (u32, u32))
    requires
        width >= 1,
        height >= 1,
    ensures
        fits_display(width as int, height as int) ==> r == (width, height),
        !fits_display(width as int, height as int) && width_is_long_axis(
            width as int,
            height as int,
        ) ==> r.0 == DISPLAY_CAP_WIDTH && r.1 == follow_axis(
            DISPLAY_CAP_WIDTH as int,
            height as int,
            width as int,
        ),
        !fits_display(width as int, height as int) && !width_is_long_axis(
            width as int,
            height as int,
        ) ==> r.1 == DISPLAY_CAP_HEIGHT && r.0 == follow_axis(
            DISPLAY_CAP_HEIGHT as int,
            width as int,
            height as int,
        ),
        fits_display(r.0 as int, r.1 as int),
        r.0 >= 1,
        r.1 >= 1,
{
    if width <= DISPLAY_CAP_WIDTH && height <= DISPLAY_CAP_HEIGHT {
        (width, height)
    } else {
        let w = width as u64;
        let h = height as u64;
        proof {
            assert(w <= u32::MAX && h <= u32::MAX);
            assert(1600 * w <= 1600 * (u32::MAX as int)) by (nonlinear_arith)
                requires
                    w <= u32::MAX,
            ;
            assert(1600 * h <= 1600 * (u32::MAX as int)) by (nonlinear_arith)
                requires
                    h <= u32::MAX,
            ;
            assert(900 * w <= 900 * (u32::MAX as int)) by (nonlinear_arith)
                requires
                    w <= u32::MAX,
            ;
            assert(900 * h <= 900 * (u32::MAX as int)) by (nonlinear_arith)
                requires
                    h <= u32::MAX,
            ;
        }
        if (DISPLAY_CAP_HEIGHT as u64) * w >= (DISPLAY_CAP_WIDTH as u64) * h {
            let scaled = ((DISPLAY_CAP_WIDTH as u64) * h) / w;
            proof {
                assert(scaled <= DISPLAY_CAP_HEIGHT) by (nonlinear_arith)
                    requires
                        scaled == ((DISPLAY_CAP_WIDTH as u64) * h) as int / w as int,
                        (DISPLAY_CAP_HEIGHT as u64) * w >= (DISPLAY_CAP_WIDTH as u64) * h,
                        w >= 1,
                ;
            }
            let nh = if scaled >= 1 {
                scaled
            } else {
                1
            };
            (DISPLAY_CAP_WIDTH, nh as u32)
        } else {
            let scaled = ((DISPLAY_CAP_HEIGHT as u64) * w) / h;
            proof {
                assert(scaled <= DISPLAY_CAP_WIDTH) by (nonlinear_arith)
                    requires
                        scaled == ((DISPLAY_CAP_HEIGHT as u64) * w) as int / h as int,
                        (DISPLAY_CAP_HEIGHT as u64) * w < (DISPLAY_CAP_WIDTH as u64) * h,
                        h >= 1,
                ;
            }
            let nw = if scaled >= 1 {
                scaled
            } else {
                1
            };
            (nw as u32, DISPLAY_CAP_HEIGHT)
        }
    }
}

} // verus!
