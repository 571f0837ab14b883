//! Turning and flipping an RGB picture before it is converted to characters.
//! The pixel work is the `image` crate's; this module states where each
//! pixel goes and composes a turn with a flip.
use vstd::prelude::*;

verus! {

/// Index of the first byte of pixel (x, y) in an RGB buffer `w` pixels wide.
pub open spec fn px(w: int, x: int, y: int) -> int {
    (y * w + x) * 3
}

/// Every pixel (x, y) of `out`, a `ow` x `oh` RGB buffer, is the pixel of
/// `src` (`w` pixels wide) that `from(x, y)` names.
pub open spec fn pixels_from(
    out: Seq<u8>,
    ow: int,
    oh: int,
    src: Seq<u8>,
    w: int,
    from: spec_fn(int, int) -> (int, int),
) -> bool {
    &&& out.len() == ow * oh * 3
    &&& forall|x: int, y: int, c: int|
        0 <= x < ow && 0 <= y < oh && 0 <= c < 3 ==> #[trigger] out[px(ow, x, y) + c] == src[px(
            w,
            from(x, y).0,
            from(x, y).1,
        ) + c]
}

/// Turns an RGB picture 90 degrees clockwise.
///
/// Calls `image::imageops::rotate90` on the buffer as an `RgbImage`; its
/// source puts pixel (x, y) of the `w` x `h` picture at (h - 1 - y, x) of a
/// new `h` x `w` picture, so output pixel (x, y) is input pixel (y, h - 1 - x).
#[verifier::external_body]
fn turn_90(rgb: Vec<u8>, w: u32, h: u32) -> (out: Vec<u8>)
    requires
        rgb@.len() == w * h * 3,
    ensures
        pixels_from(out@, h as int, w as int, rgb@, w as int, |x: int, y: int| (y, h - 1 - x)),
{
    let img = image::RgbImage::from_raw(w, h, rgb).unwrap();
    image::imageops::rotate90(&img).into_raw()
}

/// Turns an RGB picture 180 degrees.
///
/// Calls `image::imageops::rotate180`; its source puts pixel (x, y) at
/// (w - 1 - x, h - 1 - y) of a new `w` x `h` picture.
#[verifier::external_body]
fn turn_180(rgb: Vec<u8>, w: u32, h: u32) -> (out: Vec<u8>)
    requires
        rgb@.len() == w * h * 3,
    ensures
        pixels_from(
            out@,
            w as int,
            h as int,
            rgb@,
            w as int,
            |x: int, y: int| (w - 1 - x, h - 1 - y),
        ),
{
    let img = image::RgbImage::from_raw(w, h, rgb).unwrap();
    image::imageops::rotate180(&img).into_raw()
}

/// Turns an RGB picture 270 degrees clockwise.
///
/// Calls `image::imageops::rotate270`; its source puts pixel (x, y) of the
/// `w` x `h` picture at (y, w - 1 - x) of a new `h` x `w` picture, so output
/// pixel (x, y) is input pixel (w - 1 - y, x).
#[verifier::external_body]
fn turn_270(rgb: Vec<u8>, w: u32, h: u32) -> (out: Vec<u8>)
    requires
        rgb@.len() == w * h * 3,
    ensures
        pixels_from(out@, h as int, w as int, rgb@, w as int, |x: int, y: int| (w - 1 - y, x)),
{
    let img = image::RgbImage::from_raw(w, h, rgb).unwrap();
    image::imageops::rotate270(&img).into_raw()
}

/// Flips an RGB picture horizontally.
///
/// Calls `image::imageops::flip_horizontal`; its source puts pixel (x, y)
/// at (w - 1 - x, y) of a new `w` x `h` picture.
#[verifier::external_body]
fn flip_across(rgb: Vec<u8>, w: u32, h: u32) -> (out: Vec<u8>)
    requires
        rgb@.len() == w * h * 3,
    ensures
        pixels_from(out@, w as int, h as int, rgb@, w as int, |x: int, y: int| (w - 1 - x, y)),
{
    let img = image::RgbImage::from_raw(w, h, rgb).unwrap();
    image::imageops::flip_horizontal(&img).into_raw()
}

/// The size of the picture after a turn of `rotate` degrees.
pub open spec fn turned_size(w: int, h: int, rotate: int) -> (int, int) {
    if rotate == 90 || rotate == 270 {
        (h, w)
    } else {
        (w, h)
    }
}

/// Which source pixel output pixel (x, y) shows after a clockwise turn of
/// `rotate` degrees (90, 180 or 270; any other value turns nothing) and,
/// when `mirror` is set, a horizontal flip of the turned picture.
pub open spec fn oriented_source(w: int, h: int, rotate: int, mirror: bool, x: int, y: int) -> (
    int,
    int,
) {
    let tx = if mirror {
        turned_size(w, h, rotate).0 - 1 - x
    } else {
        x
    };
    if rotate == 90 {
        (y, h - 1 - tx)
    } else if rotate == 180 {
        (w - 1 - tx, h - 1 - y)
    } else if rotate == 270 {
        (w - 1 - y, tx)
    } else {
        (tx, y)
    }
}

proof fn lemma_size_commutes(w: int, h: int)
    ensures
        w * h * 3 == h * w * 3,
{
    assert(w * h == h * w) by (nonlinear_arith);
}

/// The picture turned clockwise by `rotate` degrees (90, 180 or 270; any
/// other value leaves it as it is) and then, when `mirror` is set, flipped
/// horizontally, with its new width and height.
pub fn orient_rgb(rgb: Vec<u8>, w: u32, h: u32, rotate: u16, mirror: bool) -> (r: (Vec<u8>, u32, u32))
    requires
        rgb@.len() == w * h * 3,
    ensures
        (r.1 as int, r.2 as int) == turned_size(w as int, h as int, rotate as int),
        pixels_from(
            r.0@,
            r.1 as int,
            r.2 as int,
            rgb@,
            w as int,
            |x: int, y: int| oriented_source(w as int, h as int, rotate as int, mirror, x, y),
        ),
{
    let ghost src = rgb@;
    proof {
        lemma_size_commutes(w as int, h as int);
    }
    let (turned, tw, th) = if rotate == 90 {
        (turn_90(rgb, w, h), h, w)
    } else if rotate == 180 {
        (turn_180(rgb, w, h), w, h)
    } else if rotate == 270 {
        (turn_270(rgb, w, h), h, w)
    } else {
        (rgb, w, h)
    };
    let ghost turn_from = |x: int, y: int| oriented_source(w as int, h as int, rotate as int, false, x, y);
    assert(pixels_from(turned@, tw as int, th as int, src, w as int, turn_from)) by {
        assert forall|x: int, y: int, c: int|
            0 <= x < tw && 0 <= y < th && 0 <= c < 3 implies #[trigger] turned@[px(tw as int, x, y) + c]
            == src[px(w as int, turn_from(x, y).0, turn_from(x, y).1) + c] by {}
    }
    if !mirror {
        return (turned, tw, th);
    }
    proof {
        lemma_size_commutes(tw as int, th as int);
    }
    let out = flip_across(turned, tw, th);
    proof {
        let from = |x: int, y: int| oriented_source(w as int, h as int, rotate as int, mirror, x, y);
        assert forall|x: int, y: int, c: int|
            0 <= x < tw && 0 <= y < th && 0 <= c < 3 implies #[trigger] out@[px(tw as int, x, y) + c]
            == src[px(w as int, from(x, y).0, from(x, y).1) + c] by {
            let fx = tw - 1 - x;
            assert(out@[px(tw as int, x, y) + c] == turned@[px(tw as int, fx, y) + c]);
            assert(turned@[px(tw as int, fx, y) + c] == src[px(
                w as int,
                turn_from(fx, y).0,
                turn_from(fx, y).1,
            ) + c]);
            assert(turn_from(fx, y) == from(x, y));
        }
    }
    (out, tw, th)
}

} // verus!
