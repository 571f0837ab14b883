//! The test pattern shown instead of a camera picture: moving diagonal bars
//! of varying brightness, tinted by vertical zones.
use vstd::prelude::*;

verus! {

/// Brightness of the bar at diagonal position `diag` (0..80): rising over
/// the first 40 positions and falling over the next 40, scaled to 0..=255
/// and rounded down.
pub open spec fn bar_intensity(diag: int) -> int {
    if diag < 40 {
        diag * 255 / 40
    } else {
        (80 - diag) * 255 / 40
    }
}

/// Colour of a zone (0..4) at a given brightness: warm, green, blue, purple.
pub open spec fn zone_color(zone: int, i: int) -> (int, int, int) {
    if zone == 0 {
        (i, i / 3, i / 5)
    } else if zone == 1 {
        (i / 5, i, i / 3)
    } else if zone == 2 {
        (i / 3, i / 4, i)
    } else {
        (i, i / 2, i)
    }
}

/// The pixel at (x, y) of frame `frame` of a pattern `w` pixels wide.
pub open spec fn pattern_pixel(w: int, x: int, y: int, frame: int) -> (int, int, int) {
    let offset = frame % 0x1_0000_0000;
    let diag = (x + y + offset * 3) % 80;
    let zone_w = if w / 4 > 1 { w / 4 } else { 1 };
    let zone = ((x + offset * 2) / zone_w) % 4;
    zone_color(zone, bar_intensity(diag))
}

/// Whether the pattern's arithmetic stays inside `u32` for this size and frame.
pub open spec fn pattern_fits(w: int, h: int, frame: int) -> bool {
    let offset = frame % 0x1_0000_0000;
    &&& w * h * 3 <= u32::MAX
    &&& (w - 1) + (h - 1) + offset * 3 <= u32::MAX
    &&& (w - 1) + offset * 2 <= u32::MAX
}

proof fn lemma_pixel_index(w: int, h: int, x: int, y: int)
    requires
        0 <= x < w,
        0 <= y < h,
    ensures
        0 <= (y * w + x) * 3 + 2 < w * h * 3,
        (y * w + x) * 3 == y * w * 3 + x * 3,
{
    assert(0 <= y * w + x < w * h) by (nonlinear_arith)
        requires
            0 <= x < w,
            0 <= y < h,
    ;
    assert((y * w + x) * 3 + 2 < w * h * 3) by (nonlinear_arith)
        requires
            y * w + x < w * h,
    ;
    assert((y * w + x) * 3 == y * w * 3 + x * 3) by (nonlinear_arith);
}

/// An animated RGB test pattern, `w` x `h` pixels, 3 bytes per pixel in row order.
pub fn generate_test_pattern(w: u32, h: u32, frame: u64) -> (rgb: Vec<u8>)
    requires
        pattern_fits(w as int, h as int, frame as int),
    ensures
        rgb@.len() == w * h * 3,
        forall|y: int, x: int|
            0 <= y < h && 0 <= x < w ==> {
                let (r, g, b) = pattern_pixel(w as int, x, y, frame as int);
                &&& #[trigger] rgb@[(y * w + x) * 3] == r
                &&& rgb@[(y * w + x) * 3 + 1] == g
                &&& rgb@[(y * w + x) * 3 + 2] == b
            },
{
    let mut rgb: Vec<u8> = Vec::new();
    let offset = (frame % 0x1_0000_0000) as u32;
    let zone_w = if w / 4 > 1 { w / 4 } else { 1 };
    let mut y: u32 = 0;
    while y < h
        invariant
            pattern_fits(w as int, h as int, frame as int),
            offset == frame % 0x1_0000_0000,
            zone_w == (if w / 4 > 1 { w / 4 } else { 1 }),
            y <= h,
            rgb@.len() == y * w * 3,
            forall|ay: int, ax: int|
                0 <= ay < y && 0 <= ax < w ==> {
                    let (r, g, b) = pattern_pixel(w as int, ax, ay, frame as int);
                    &&& #[trigger] rgb@[(ay * w + ax) * 3] == r
                    &&& rgb@[(ay * w + ax) * 3 + 1] == g
                    &&& rgb@[(ay * w + ax) * 3 + 2] == b
                },
        decreases h - y,
    {
        let mut x: u32 = 0;
        while x < w
            invariant
                pattern_fits(w as int, h as int, frame as int),
                offset == frame % 0x1_0000_0000,
                zone_w == (if w / 4 > 1 { w / 4 } else { 1 }),
                y < h,
                x <= w,
                rgb@.len() == y * w * 3 + x * 3,
                forall|ay: int, ax: int|
                    0 <= ay < y && 0 <= ax < w ==> {
                        let (r, g, b) = pattern_pixel(w as int, ax, ay, frame as int);
                        &&& #[trigger] rgb@[(ay * w + ax) * 3] == r
                        &&& rgb@[(ay * w + ax) * 3 + 1] == g
                        &&& rgb@[(ay * w + ax) * 3 + 2] == b
                    },
                forall|ax: int|
                    0 <= ax < x ==> {
                        let (r, g, b) = pattern_pixel(w as int, ax, y as int, frame as int);
                        &&& #[trigger] rgb@[(y * w + ax) * 3] == r
                        &&& rgb@[(y * w + ax) * 3 + 1] == g
                        &&& rgb@[(y * w + ax) * 3 + 2] == b
                    },
            decreases w - x,
        {
            let diag = (x + y + offset * 3) % 80;
            let intensity: u8 = if diag < 40 {
                (diag * 255 / 40) as u8
            } else {
                ((80 - diag) * 255 / 40) as u8
            };
            let zone = ((x + offset * 2) / zone_w) % 4;
            let (r, g, b) = if zone == 0 {
                (intensity, intensity / 3, intensity / 5)
            } else if zone == 1 {
                (intensity / 5, intensity, intensity / 3)
            } else if zone == 2 {
                (intensity / 3, intensity / 4, intensity)
            } else {
                (intensity, intensity / 2, intensity)
            };
            let ghost before = rgb@;
            rgb.push(r);
            rgb.push(g);
            rgb.push(b);
            proof {
                lemma_pixel_index(w as int, h as int, x as int, y as int);
                let p = pattern_pixel(w as int, x as int, y as int, frame as int);
                assert(rgb@[(y * w + x) * 3] == p.0);
                assert forall|ay: int, ax: int| 0 <= ay < y && 0 <= ax < w implies {
                    let (r, g, b) = pattern_pixel(w as int, ax, ay, frame as int);
                    &&& #[trigger] rgb@[(ay * w + ax) * 3] == r
                    &&& rgb@[(ay * w + ax) * 3 + 1] == g
                    &&& rgb@[(ay * w + ax) * 3 + 2] == b
                } by {
                    lemma_pixel_index(w as int, y as int, ax, ay);
                    assert(w * y * 3 == y * w * 3) by (nonlinear_arith);
                    assert(rgb@[(ay * w + ax) * 3] == before[(ay * w + ax) * 3]);
                    assert(rgb@[(ay * w + ax) * 3 + 1] == before[(ay * w + ax) * 3 + 1]);
                    assert(rgb@[(ay * w + ax) * 3 + 2] == before[(ay * w + ax) * 3 + 2]);
                }
                assert forall|ax: int| 0 <= ax < x + 1 implies {
                    let (r, g, b) = pattern_pixel(w as int, ax, y as int, frame as int);
                    &&& #[trigger] rgb@[(y * w + ax) * 3] == r
                    &&& rgb@[(y * w + ax) * 3 + 1] == g
                    &&& rgb@[(y * w + ax) * 3 + 2] == b
                } by {
                    if ax < x {
                        assert((y * w + ax) * 3 == y * w * 3 + ax * 3) by (nonlinear_arith);
                        assert(rgb@[(y * w + ax) * 3] == before[(y * w + ax) * 3]);
                        assert(rgb@[(y * w + ax) * 3 + 1] == before[(y * w + ax) * 3 + 1]);
                        assert(rgb@[(y * w + ax) * 3 + 2] == before[(y * w + ax) * 3 + 2]);
                    }
                }
            }
            x = x + 1;
        }
        proof {
            assert(y * w * 3 + w * 3 == (y + 1) * w * 3) by (nonlinear_arith);
        }
        y = y + 1;
    }
    proof {
        assert(h * w * 3 == w * h * 3) by (nonlinear_arith);
    }
    rgb
}

} // verus!
