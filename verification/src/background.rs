//! Foreground masks: growing the foreground so thin outlines survive the
//! background cut. (The running background estimate itself is kept by the
//! caller.)
use vstd::prelude::*;

verus! {

/// Whether some foreground pixel of the `w` x `h` mask lies within `r`
/// pixels of (x, y) in both directions.
pub open spec fn near_foreground(mask: Seq<bool>, w: int, h: int, x: int, y: int, r: int) -> bool {
    exists|qx: int, qy: int|
        0 <= qx < w && 0 <= qy < h && x - r <= qx <= x + r && y - r <= qy <= y + r && #[trigger] mask[qy * w
            + qx]
}

/// Whether a foreground pixel lies in rows `y0..y1`, columns `x0..x1` of the mask.
pub open spec fn any_in(mask: Seq<bool>, w: int, x0: int, x1: int, y0: int, y1: int) -> bool {
    exists|qx: int, qy: int| x0 <= qx < x1 && y0 <= qy < y1 && #[trigger] mask[qy * w + qx]
}

proof fn lemma_index_bound(w: int, h: int, x: int, y: int)
    requires
        0 <= x < w,
        0 <= y < h,
    ensures
        0 <= y * w + x < w * h,
{
    assert(0 <= y * w + x < w * h) by (nonlinear_arith)
        requires
            0 <= x < w,
            0 <= y < h,
    ;
}

/// Scan the rectangle `x0..x1` x `y0..y1` for a foreground pixel.
fn window_any(mask: &[bool], w: u32, h: u32, x0: u32, x1: u32, y0: u32, y1: u32) -> (r: bool)
    requires
        w * h <= u32::MAX,
        mask@.len() >= w * h,
        x0 <= x1 <= w,
        y0 <= y1 <= h,
    ensures
        r == any_in(mask@, w as int, x0 as int, x1 as int, y0 as int, y1 as int),
{
    let mut qy = y0;
    while qy < y1
        invariant
            w * h <= u32::MAX,
            mask@.len() >= w * h,
            x0 <= x1 <= w,
            y0 <= qy <= y1 <= h,
            !any_in(mask@, w as int, x0 as int, x1 as int, y0 as int, qy as int),
        decreases y1 - qy,
    {
        let mut qx = x0;
        while qx < x1
            invariant
                w * h <= u32::MAX,
                mask@.len() >= w * h,
                x0 <= qx <= x1 <= w,
                y0 <= qy < y1 <= h,
                !any_in(mask@, w as int, x0 as int, x1 as int, y0 as int, qy as int),
                !any_in(mask@, w as int, x0 as int, qx as int, qy as int, qy + 1),
            decreases x1 - qx,
        {
            proof {
                lemma_index_bound(w as int, h as int, qx as int, qy as int);
            }
            let idx = qy * w + qx;
            if mask[idx as usize] {
                assert(mask@[qy * w + qx]);
                return true;
            }
            qx = qx + 1;
        }
        proof {
            assert forall|ax: int, ay: int| x0 <= ax < x1 && y0 <= ay < qy + 1 implies !#[trigger] mask@[ay * w
                + ax] by {
                if ay < qy {
                    assert(!any_in(mask@, w as int, x0 as int, x1 as int, y0 as int, qy as int));
                } else {
                    assert(!any_in(mask@, w as int, x0 as int, x1 as int, qy as int, qy + 1));
                }
            }
        }
        qy = qy + 1;
    }
    false
}

/// Binary dilation: expand each foreground pixel of the `w` x `h` mask by
/// `radius` pixels (a square neighbourhood), so that thin edges are not cut
/// off at the foreground boundary. A negative radius leaves no foreground.
pub fn dilate_mask(mask: &[bool], w: u32, h: u32, radius: i32) -> (out: Vec<bool>)
    requires
        w * h <= i32::MAX,
        mask@.len() >= w * h,
        radius > i32::MIN,
        radius + w <= i32::MAX,
        radius + h <= i32::MAX,
    ensures
        out@.len() == w * h,
        forall|y: int, x: int|
            0 <= y < h && 0 <= x < w ==> #[trigger] out@[y * w + x] == near_foreground(
                mask@,
                w as int,
                h as int,
                x,
                y,
                radius as int,
            ),
{
    let mut out: Vec<bool> = Vec::new();
    let mut y: u32 = 0;
    while y < h
        invariant
            w * h <= i32::MAX,
            mask@.len() >= w * h,
            radius > i32::MIN,
            radius + w <= i32::MAX,
            radius + h <= i32::MAX,
            y <= h,
            out@.len() == y * w,
            forall|ay: int, ax: int|
                0 <= ay < y && 0 <= ax < w ==> #[trigger] out@[ay * w + ax] == near_foreground(
                    mask@,
                    w as int,
                    h as int,
                    ax,
                    ay,
                    radius as int,
                ),
        decreases h - y,
    {
        let mut x: u32 = 0;
        while x < w
            invariant
                w * h <= i32::MAX,
                mask@.len() >= w * h,
                radius > i32::MIN,
                radius + w <= i32::MAX,
                radius + h <= i32::MAX,
                y < h,
                x <= w,
                out@.len() == y * w + x,
                forall|ay: int, ax: int|
                    0 <= ay < y && 0 <= ax < w ==> #[trigger] out@[ay * w + ax] == near_foreground(
                        mask@,
                        w as int,
                        h as int,
                        ax,
                        ay,
                        radius as int,
                    ),
                forall|ax: int|
                    0 <= ax < x ==> #[trigger] out@[y * w + ax] == near_foreground(
                        mask@,
                        w as int,
                        h as int,
                        ax,
                        y as int,
                        radius as int,
                    ),
            decreases w - x,
        {
            let v = if radius < 0 {
                assert(!near_foreground(mask@, w as int, h as int, x as int, y as int, radius as int));
                false
            } else {
                let r = radius as u32;
                let x0 = if x >= r { x - r } else { 0 };
                let y0 = if y >= r { y - r } else { 0 };
                let x1 = if (x as i64) + (r as i64) + 1 < (w as i64) { x + r + 1 } else { w };
                let y1 = if (y as i64) + (r as i64) + 1 < (h as i64) { y + r + 1 } else { h };
                let found = window_any(mask, w, h, x0, x1, y0, y1);
                proof {
                    if found {
                        let (qx, qy) = choose|qx: int, qy: int|
                            x0 <= qx < x1 && y0 <= qy < y1 && #[trigger] mask@[qy * w + qx];
                        assert(mask@[qy * w + qx]);
                    } else {
                        if near_foreground(mask@, w as int, h as int, x as int, y as int, radius as int) {
                            let (qx, qy) = choose|qx: int, qy: int|
                                0 <= qx < w && 0 <= qy < h && x - radius <= qx <= x + radius && y - radius
                                    <= qy <= y + radius && #[trigger] mask@[qy * w + qx];
                            assert(mask@[qy * w + qx]);
                            assert(x0 <= qx < x1 && y0 <= qy < y1);
                        }
                    }
                }
                found
            };
            let ghost before = out@;
            out.push(v);
            proof {
                assert(out@[y * w + x] == v) by {
                    assert((y * w + x) == out@.len() - 1);
                }
                assert(w * y == y * w) by (nonlinear_arith);
                assert forall|ay: int, ax: int| 0 <= ay < y && 0 <= ax < w implies #[trigger] out@[ay * w + ax]
                    == near_foreground(mask@, w as int, h as int, ax, ay, radius as int) by {
                    lemma_index_bound(w as int, y as int, ax, ay);
                    assert(out@[ay * w + ax] == before[ay * w + ax]);
                }
                assert forall|ax: int| 0 <= ax < x + 1 implies #[trigger] out@[y * w + ax] == near_foreground(
                    mask@,
                    w as int,
                    h as int,
                    ax,
                    y as int,
                    radius as int,
                ) by {
                    if ax < x {
                        assert(out@[y * w + ax] == before[y * w + ax]);
                    }
                }
            }
            x = x + 1;
        }
        proof {
            assert(y * w + w == (y + 1) * w) by (nonlinear_arith);
            assert forall|ay: int, ax: int| 0 <= ay < y + 1 && 0 <= ax < w implies #[trigger] out@[ay * w + ax]
                == near_foreground(mask@, w as int, h as int, ax, ay, radius as int) by {
                if ay < y {
                } else {
                    assert(out@[y * w + ax] == near_foreground(mask@, w as int, h as int, ax, y as int, radius as int));
                }
            }
        }
        y = y + 1;
    }
    assert(y * w == w * h) by (nonlinear_arith)
        requires
            y == h,
    ;
    out
}

} // verus!
