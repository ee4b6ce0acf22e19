//! Pure rasterization over flat row-major pixel buffers.
//!
//! Every drawing operation is specified by a *hit predicate* that decides
//! whether a pixel is touched by the operation; the operation's contract
//! then states, pixel by pixel, that touched pixels take the new value and
//! untouched pixels keep their old one.  The predicates for discs, brush
//! lines and square outlines are defined by recursion over the very state
//! machines (midpoint circle, Bresenham stepping) that the executable
//! code runs, which is the most direct statement of the produced shape.

use vstd::prelude::*;

verus! {

/// The pixel of buffer `s` (width `w`) at column `px`, row `py`.
pub open spec fn pix(s: Seq<u32>, w: int, px: int, py: int) -> u32 {
    s[py * w + px]
}

/// Does the horizontal span write `[x1, x2]` at row `y` touch
/// `(px, py)`?  The inclusive span is clipped to the column range;
/// rows outside the buffer are not written at all.
pub open spec fn span_hit(w: int, h: int, x1: int, x2: int, y: int, px: int, py: int) -> bool {
    &&& 0 <= y < h
    &&& py == y
    &&& imax(x1, 0) <= px <= imin(x2, w - 1)
}

/// The value a preview-delete writes at `(px, py)`: the persisted color
/// if the drawing buffer holds ink there, the background color otherwise.
pub open spec fn restore_val(drawing: Seq<u32>, w: int, bg: u32, px: int, py: int) -> u32 {
    if pix(drawing, w, px, py) == 0 {
        bg
    } else {
        pix(drawing, w, px, py)
    }
}

/// Two in-range row-major coordinates with the same flat index are equal.
pub proof fn lemma_pix_index_unique(w: int, px: int, py: int, qx: int, qy: int)
    requires
        1 <= w,
        0 <= px < w,
        0 <= qx < w,
        0 <= py,
        0 <= qy,
        py * w + px == qy * w + qx,
    ensures
        px == qx && py == qy,
{
    assert(py == qy) by (nonlinear_arith)
        requires
            1 <= w,
            0 <= px < w,
            0 <= qx < w,
            0 <= py,
            0 <= qy,
            py * w + px == qy * w + qx,
    ;
}

/// A flat index lies in the written range of a row span exactly when its
/// coordinates lie on that row between the span's bounds.
pub proof fn lemma_row_index(w: int, y: int, a: int, b: int, px: int, py: int)
    requires
        1 <= w,
        0 <= a,
        b <= w,
        0 <= px < w,
        0 <= py,
        0 <= y,
    ensures
        (y * w + a <= py * w + px < y * w + b) <==> (py == y && a <= px < b),
{
    assert((y * w + a <= py * w + px < y * w + b) <==> (py == y && a <= px < b))
        by (nonlinear_arith)
        requires
            1 <= w,
            0 <= a,
            b <= w,
            0 <= px < w,
            0 <= py,
            0 <= y,
    ;
}

/// A row index is within the buffer.
pub proof fn lemma_row_in_buf(w: int, h: int, y: int, c: int)
    requires
        1 <= w,
        1 <= h,
        0 <= y < h,
        0 <= c < w,
    ensures
        0 <= y * w + c < w * h,
    decreases 0int,
{
    assert(0 <= y * w + c < w * h) by (nonlinear_arith)
        requires
            1 <= w,
            1 <= h,
            0 <= y < h,
            0 <= c < w,
    ;
}

/// Fill the clipped span `[x1, x2)` of row `y` with `color`.
pub fn fill_span(buf: &mut Vec<u32>, w: i32, h: i32, x1: i64, x2: i64, y: i64, color: u32)
    requires
        1 <= w,
        1 <= h,
        (w as int) * (h as int) == old(buf)@.len(),
        (w as int) * (h as int) <= i32::MAX,
        x1 <= x2,
    ensures
        final(buf)@.len() == old(buf)@.len(),
        forall|px: int, py: int|
            0 <= px < w && 0 <= py < h ==> #[trigger] pix(final(buf)@, w as int, px, py) == (
            if span_hit(w as int, h as int, x1 as int, x2 as int, y as int, px, py) {
                color
            } else {
                pix(old(buf)@, w as int, px, py)
            }),
{
    let ghost prev = buf@;
    if y < 0 || y >= h as i64 {
        return ;
    }
    let a: i64 = if x1 < 0 {
        0
    } else {
        x1
    };
    let b: i64 = if x2 > (w - 1) as i64 {
        (w - 1) as i64
    } else {
        x2
    };
    if b < a {
        return ;
    }
    let ghost wi = w as int;
    let ghost hi = h as int;
    proof {
        assert(0 <= (y as int) * wi + a && (y as int) * wi + b + 1 <= wi * hi) by (nonlinear_arith)
            requires
                1 <= wi,
                1 <= hi,
                0 <= y < hi,
                0 <= a,
                b + 1 <= wi,
        ;
    }
    let row: i64 = y * (w as i64);
    let mut i: usize = (row + a) as usize;
    let end: usize = (row + b + 1) as usize;
    let ghost lo = row + a;
    while i < end
        invariant
            buf@.len() == prev.len(),
            prev.len() == wi * hi,
            0 <= lo <= i <= end,
            end <= prev.len(),
            forall|t: int| 0 <= t < prev.len() && !(lo <= t < i) ==> buf@[t] == prev[t],
            forall|t: int| lo <= t < i ==> buf@[t] == color,
        decreases end - i,
    {
        buf.set(i, color);
        i = i + 1;
    }
    proof {
        assert forall|px: int, py: int| 0 <= px < wi && 0 <= py < hi implies #[trigger] pix(
            buf@,
            wi,
            px,
            py,
        ) == (if span_hit(wi, hi, x1 as int, x2 as int, y as int, px, py) {
            color
        } else {
            pix(prev, wi, px, py)
        }) by {
            lemma_row_in_buf(wi, hi, py, px);
            lemma_row_index(wi, y as int, a as int, b as int + 1, px, py);
        }
    }
}

/// Write the restore value of every pixel of the clipped span `[x1, x2)`
/// of row `y`: the persisted color where the drawing buffer holds ink,
/// the background color elsewhere.
pub fn restore_span(
    buf: &mut Vec<u32>,
    drawing: &Vec<u32>,
    w: i32,
    h: i32,
    x1: i64,
    x2: i64,
    y: i64,
    bg: u32,
)
    requires
        1 <= w,
        1 <= h,
        (w as int) * (h as int) == old(buf)@.len(),
        (w as int) * (h as int) == drawing@.len(),
        (w as int) * (h as int) <= i32::MAX,
        x1 <= x2,
    ensures
        final(buf)@.len() == old(buf)@.len(),
        forall|px: int, py: int|
            0 <= px < w && 0 <= py < h ==> #[trigger] pix(final(buf)@, w as int, px, py) == (
            if span_hit(w as int, h as int, x1 as int, x2 as int, y as int, px, py) {
                restore_val(drawing@, w as int, bg, px, py)
            } else {
                pix(old(buf)@, w as int, px, py)
            }),
{
    let ghost prev = buf@;
    if y < 0 || y >= h as i64 {
        return ;
    }
    let a: i64 = if x1 < 0 {
        0
    } else {
        x1
    };
    let b: i64 = if x2 > (w - 1) as i64 {
        (w - 1) as i64
    } else {
        x2
    };
    if b < a {
        return ;
    }
    let ghost wi = w as int;
    let ghost hi = h as int;
    proof {
        assert(0 <= (y as int) * wi + a && (y as int) * wi + b + 1 <= wi * hi) by (nonlinear_arith)
            requires
                1 <= wi,
                1 <= hi,
                0 <= y < hi,
                0 <= a,
                b + 1 <= wi,
        ;
    }
    let row: i64 = y * (w as i64);
    let mut i: usize = (row + a) as usize;
    let end: usize = (row + b + 1) as usize;
    let ghost lo = row + a;
    while i < end
        invariant
            buf@.len() == prev.len(),
            prev.len() == wi * hi,
            drawing@.len() == wi * hi,
            0 <= lo <= i <= end,
            end <= prev.len(),
            forall|t: int| 0 <= t < prev.len() && !(lo <= t < i) ==> buf@[t] == prev[t],
            forall|t: int|
                lo <= t < i ==> buf@[t] == (if drawing@[t] == 0 {
                    bg
                } else {
                    drawing@[t]
                }),
        decreases end - i,
    {
        let v: u32 = if drawing[i] == 0 {
            bg
        } else {
            drawing[i]
        };
        buf.set(i, v);
        i = i + 1;
    }
    proof {
        assert forall|px: int, py: int| 0 <= px < wi && 0 <= py < hi implies #[trigger] pix(
            buf@,
            wi,
            px,
            py,
        ) == (if span_hit(wi, hi, x1 as int, x2 as int, y as int, px, py) {
            restore_val(drawing@, wi, bg, px, py)
        } else {
            pix(prev, wi, px, py)
        }) by {
            lemma_row_in_buf(wi, hi, py, px);
            lemma_row_index(wi, y as int, a as int, b as int + 1, px, py);
        }
    }
}


/// The four horizontal spans one midpoint-circle iteration fills for the
/// octant state `(x, y)` of a disc centered at `(cx, cy)`.
pub open spec fn disc_arm_hit(
    w: int,
    h: int,
    cx: int,
    cy: int,
    x: int,
    y: int,
    px: int,
    py: int,
) -> bool {
    ||| span_hit(w, h, cx - x, cx + x, cy + y, px, py)
    ||| span_hit(w, h, cx - x, cx + x, cy - y, px, py)
    ||| span_hit(w, h, cx - y, cx + y, cy + x, px, py)
    ||| span_hit(w, h, cx - y, cx + y, cy - x, px, py)
}

/// Pixels the midpoint-circle loop still touches from state `(x, y, d)`
/// on: the four spans of the current iteration plus everything the next
/// state touches.  The state update is exactly the executable one.
pub open spec fn disc_state_hit(
    w: int,
    h: int,
    cx: int,
    cy: int,
    x: int,
    y: int,
    d: int,
    px: int,
    py: int,
) -> bool
    decreases x - y + 2,
{
    if x < y {
        false
    } else {
        disc_arm_hit(w, h, cx, cy, x, y, px, py) || (if d <= 0 {
            disc_state_hit(w, h, cx, cy, x, y + 1, d + 2 * (y + 1) + 1, px, py)
        } else {
            disc_state_hit(w, h, cx, cy, x - 1, y + 1, d + 2 * ((y + 1) - (x - 1)) + 1, px, py)
        })
    }
}

/// Pixels of the filled disc of radius `r` centered at `(cx, cy)`,
/// clipped to a `w` by `h` buffer.
pub open spec fn disc_hit(w: int, h: int, cx: int, cy: int, r: int, px: int, py: int) -> bool {
    disc_state_hit(w, h, cx, cy, r, 0, 1 - r, px, py)
}

/// Bounds clipping: from any midpoint state whose whole bounding range
/// lies outside the buffer, no pixel is touched.
proof fn lemma_disc_state_clipped(
    w: int,
    h: int,
    cx: int,
    cy: int,
    x: int,
    y: int,
    d: int,
    px: int,
    py: int,
)
    requires
        y >= 0,
        cx + x <= -1 || cx - x >= w || cy + x <= -1 || cy - x >= h,
    ensures
        !disc_state_hit(w, h, cx, cy, x, y, d, px, py),
    decreases x - y + 2,
{
    if x < y {
    } else {
        if d <= 0 {
            lemma_disc_state_clipped(w, h, cx, cy, x, y + 1, d + 2 * (y + 1) + 1, px, py);
        } else {
            lemma_disc_state_clipped(
                w,
                h,
                cx,
                cy,
                x - 1,
                y + 1,
                d + 2 * ((y + 1) - (x - 1)) + 1,
                px,
                py,
            );
        }
    }
}

/// Bounds clipping: a disc whose center is far enough outside the buffer
/// touches no pixel at all, whatever its radius.
pub proof fn lemma_disc_fully_clipped(w: int, h: int, cx: int, cy: int, r: int, px: int, py: int)
    requires
        r >= 0,
        cx + r <= -1 || cx - r >= w || cy + r <= -1 || cy - r >= h,
    ensures
        !disc_hit(w, h, cx, cy, r, px, py),
{
    lemma_disc_state_clipped(w, h, cx, cy, r, 0, 1 - r, px, py);
}

/// Fill the disc of radius `r` centered at `(cx, cy)` with `color`,
/// clipping every span write to the buffer.
pub fn disc_fill(buf: &mut Vec<u32>, w: i32, h: i32, cx: i64, cy: i64, r: i64, color: u32)
    requires
        1 <= w,
        1 <= h,
        (w as int) * (h as int) == old(buf)@.len(),
        (w as int) * (h as int) <= i32::MAX,
        0 <= r <= 0x4000,
        i32::MIN <= cx <= i32::MAX,
        i32::MIN <= cy <= i32::MAX,
    ensures
        final(buf)@.len() == old(buf)@.len(),
        forall|px: int, py: int|
            0 <= px < w && 0 <= py < h ==> #[trigger] pix(final(buf)@, w as int, px, py) == (
            if disc_hit(w as int, h as int, cx as int, cy as int, r as int, px, py) {
                color
            } else {
                pix(old(buf)@, w as int, px, py)
            }),
{
    let ghost prev = buf@;
    let ghost wi = w as int;
    let ghost hi = h as int;
    let ghost cxi = cx as int;
    let ghost cyi = cy as int;
    let ghost ri = r as int;
    let mut x: i64 = r;
    let mut y: i64 = 0;
    let mut d: i64 = 1 - r;
    while x >= y
        invariant
            1 <= w,
            1 <= h,
            wi == w as int,
            hi == h as int,
            cxi == cx as int,
            cyi == cy as int,
            ri == r as int,
            buf@.len() == prev.len(),
            prev.len() == wi * hi,
            wi * hi <= i32::MAX,
            i32::MIN <= cx <= i32::MAX,
            i32::MIN <= cy <= i32::MAX,
            0 <= r <= 0x4000,
            -1 <= x <= r,
            0 <= y <= x + 2,
            -2 * r - 4 <= d,
            d <= 1 - r + y * y + 6 * y,
            forall|px: int, py: int|
                #[trigger] disc_state_hit(wi, hi, cxi, cyi, x as int, y as int, d as int, px, py)
                    ==> disc_hit(wi, hi, cxi, cyi, ri, px, py),
            forall|px: int, py: int|
                0 <= px < wi && 0 <= py < hi && !disc_state_hit(
                    wi,
                    hi,
                    cxi,
                    cyi,
                    x as int,
                    y as int,
                    d as int,
                    px,
                    py,
                ) ==> #[trigger] pix(buf@, wi, px, py) == (if disc_hit(wi, hi, cxi, cyi, ri, px, py) {
                    color
                } else {
                    pix(prev, wi, px, py)
                }),
        decreases x - y + 2,
    {
        let ghost x0 = x as int;
        let ghost y0 = y as int;
        let ghost d0 = d as int;
        let ghost mid = buf@;
        fill_span(buf, w, h, cx - x, cx + x, cy + y, color);
        fill_span(buf, w, h, cx - x, cx + x, cy - y, color);
        fill_span(buf, w, h, cx - y, cx + y, cy + x, color);
        fill_span(buf, w, h, cx - y, cx + y, cy - x, color);
        proof {
            assert(-0x20000000 <= d <= 0x20000000) by (nonlinear_arith)
                requires
                    -2 * r - 4 <= d,
                    d <= 1 - r + y * y + 6 * y,
                    0 <= y,
                    y <= x + 2,
                    x <= r,
                    0 <= r <= 0x4000,
            ;
        }
        y = y + 1;
        if d <= 0 {
            d = d + 2 * y + 1;
        } else {
            x = x - 1;
            d = d + 2 * (y - x) + 1;
        }
        proof {
            assert(d <= 1 - r + y * y + 6 * y) by (nonlinear_arith)
                requires
                    y == y0 + 1,
                    d0 <= 1 - r + y0 * y0 + 6 * y0,
                    y0 >= 0,
                    x0 >= y0,
                    (d0 <= 0 ==> d == d0 + 2 * y + 1 && x == x0)
                        && (d0 > 0 ==> d == d0 + 2 * (y - x) + 1 && x == x0 - 1),
            ;
            assert forall|px: int, py: int|
                #[trigger] disc_state_hit(wi, hi, cxi, cyi, x as int, y as int, d as int, px, py)
                    implies disc_hit(wi, hi, cxi, cyi, ri, px, py) by {
                assert(disc_state_hit(wi, hi, cxi, cyi, x0, y0, d0, px, py) == (disc_arm_hit(
                    wi,
                    hi,
                    cxi,
                    cyi,
                    x0,
                    y0,
                    px,
                    py,
                ) || disc_state_hit(wi, hi, cxi, cyi, x as int, y as int, d as int, px, py)));
            }
            assert forall|px: int, py: int|
                0 <= px < wi && 0 <= py < hi && !disc_state_hit(
                    wi,
                    hi,
                    cxi,
                    cyi,
                    x as int,
                    y as int,
                    d as int,
                    px,
                    py,
                ) implies #[trigger] pix(buf@, wi, px, py) == (if disc_hit(
                    wi,
                    hi,
                    cxi,
                    cyi,
                    ri,
                    px,
                    py,
                ) {
                    color
                } else {
                    pix(prev, wi, px, py)
                }) by {
                assert(disc_state_hit(wi, hi, cxi, cyi, x0, y0, d0, px, py) == (disc_arm_hit(
                    wi,
                    hi,
                    cxi,
                    cyi,
                    x0,
                    y0,
                    px,
                    py,
                ) || disc_state_hit(wi, hi, cxi, cyi, x as int, y as int, d as int, px, py)));
            }
        }
    }
    proof {
        assert forall|px: int, py: int| 0 <= px < wi && 0 <= py < hi implies #[trigger] pix(
            buf@,
            wi,
            px,
            py,
        ) == (if disc_hit(wi, hi, cxi, cyi, ri, px, py) {
            color
        } else {
            pix(prev, wi, px, py)
        }) by {
            assert(!disc_state_hit(wi, hi, cxi, cyi, x as int, y as int, d as int, px, py));
        }
    }
}

/// Restore the disc of radius `r` centered at `(cx, cy)` on the
/// presentable buffer from the persisted drawing buffer and background.
pub fn disc_restore(
    buf: &mut Vec<u32>,
    drawing: &Vec<u32>,
    w: i32,
    h: i32,
    cx: i64,
    cy: i64,
    r: i64,
    bg: u32,
)
    requires
        1 <= w,
        1 <= h,
        (w as int) * (h as int) == old(buf)@.len(),
        (w as int) * (h as int) == drawing@.len(),
        (w as int) * (h as int) <= i32::MAX,
        0 <= r <= 0x4000,
        i32::MIN <= cx <= i32::MAX,
        i32::MIN <= cy <= i32::MAX,
    ensures
        final(buf)@.len() == old(buf)@.len(),
        forall|px: int, py: int|
            0 <= px < w && 0 <= py < h ==> #[trigger] pix(final(buf)@, w as int, px, py) == (
            if disc_hit(w as int, h as int, cx as int, cy as int, r as int, px, py) {
                restore_val(drawing@, w as int, bg, px, py)
            } else {
                pix(old(buf)@, w as int, px, py)
            }),
{
    let ghost prev = buf@;
    let ghost wi = w as int;
    let ghost hi = h as int;
    let ghost cxi = cx as int;
    let ghost cyi = cy as int;
    let ghost ri = r as int;
    let mut x: i64 = r;
    let mut y: i64 = 0;
    let mut d: i64 = 1 - r;
    while x >= y
        invariant
            1 <= w,
            1 <= h,
            wi == w as int,
            hi == h as int,
            cxi == cx as int,
            cyi == cy as int,
            ri == r as int,
            buf@.len() == prev.len(),
            prev.len() == wi * hi,
            drawing@.len() == wi * hi,
            wi * hi <= i32::MAX,
            i32::MIN <= cx <= i32::MAX,
            i32::MIN <= cy <= i32::MAX,
            0 <= r <= 0x4000,
            -1 <= x <= r,
            0 <= y <= x + 2,
            -2 * r - 4 <= d,
            d <= 1 - r + y * y + 6 * y,
            forall|px: int, py: int|
                #[trigger] disc_state_hit(wi, hi, cxi, cyi, x as int, y as int, d as int, px, py)
                    ==> disc_hit(wi, hi, cxi, cyi, ri, px, py),
            forall|px: int, py: int|
                0 <= px < wi && 0 <= py < hi && !disc_state_hit(
                    wi,
                    hi,
                    cxi,
                    cyi,
                    x as int,
                    y as int,
                    d as int,
                    px,
                    py,
                ) ==> #[trigger] pix(buf@, wi, px, py) == (if disc_hit(wi, hi, cxi, cyi, ri, px, py) {
                    restore_val(drawing@, wi, bg, px, py)
                } else {
                    pix(prev, wi, px, py)
                }),
        decreases x - y + 2,
    {
        let ghost x0 = x as int;
        let ghost y0 = y as int;
        let ghost d0 = d as int;
        let ghost mid = buf@;
        restore_span(buf, drawing, w, h, cx - x, cx + x, cy + y, bg);
        restore_span(buf, drawing, w, h, cx - x, cx + x, cy - y, bg);
        restore_span(buf, drawing, w, h, cx - y, cx + y, cy + x, bg);
        restore_span(buf, drawing, w, h, cx - y, cx + y, cy - x, bg);
        proof {
            assert(-0x20000000 <= d <= 0x20000000) by (nonlinear_arith)
                requires
                    -2 * r - 4 <= d,
                    d <= 1 - r + y * y + 6 * y,
                    0 <= y,
                    y <= x + 2,
                    x <= r,
                    0 <= r <= 0x4000,
            ;
        }
        y = y + 1;
        if d <= 0 {
            d = d + 2 * y + 1;
        } else {
            x = x - 1;
            d = d + 2 * (y - x) + 1;
        }
        proof {
            assert(d <= 1 - r + y * y + 6 * y) by (nonlinear_arith)
                requires
                    y == y0 + 1,
                    d0 <= 1 - r + y0 * y0 + 6 * y0,
                    y0 >= 0,
                    x0 >= y0,
                    (d0 <= 0 ==> d == d0 + 2 * y + 1 && x == x0)
                        && (d0 > 0 ==> d == d0 + 2 * (y - x) + 1 && x == x0 - 1),
            ;
            assert forall|px: int, py: int|
                #[trigger] disc_state_hit(wi, hi, cxi, cyi, x as int, y as int, d as int, px, py)
                    implies disc_hit(wi, hi, cxi, cyi, ri, px, py) by {
                assert(disc_state_hit(wi, hi, cxi, cyi, x0, y0, d0, px, py) == (disc_arm_hit(
                    wi,
                    hi,
                    cxi,
                    cyi,
                    x0,
                    y0,
                    px,
                    py,
                ) || disc_state_hit(wi, hi, cxi, cyi, x as int, y as int, d as int, px, py)));
            }
            assert forall|px: int, py: int|
                0 <= px < wi && 0 <= py < hi && !disc_state_hit(
                    wi,
                    hi,
                    cxi,
                    cyi,
                    x as int,
                    y as int,
                    d as int,
                    px,
                    py,
                ) implies #[trigger] pix(buf@, wi, px, py) == (if disc_hit(
                    wi,
                    hi,
                    cxi,
                    cyi,
                    ri,
                    px,
                    py,
                ) {
                    restore_val(drawing@, wi, bg, px, py)
                } else {
                    pix(prev, wi, px, py)
                }) by {
                assert(disc_state_hit(wi, hi, cxi, cyi, x0, y0, d0, px, py) == (disc_arm_hit(
                    wi,
                    hi,
                    cxi,
                    cyi,
                    x0,
                    y0,
                    px,
                    py,
                ) || disc_state_hit(wi, hi, cxi, cyi, x as int, y as int, d as int, px, py)));
            }
        }
    }
    proof {
        assert forall|px: int, py: int| 0 <= px < wi && 0 <= py < hi implies #[trigger] pix(
            buf@,
            wi,
            px,
            py,
        ) == (if disc_hit(wi, hi, cxi, cyi, ri, px, py) {
            restore_val(drawing@, wi, bg, px, py)
        } else {
            pix(prev, wi, px, py)
        }) by {
            assert(!disc_state_hit(wi, hi, cxi, cyi, x as int, y as int, d as int, px, py));
        }
    }
}

/// Validity of a Bresenham stepping state `(x, y, err)` walking toward
/// `(x1, y1)`: the signed remaining distances lie within `[0, dx]` and
/// `[0, dy]`, and `err` has its closed form in the steps already taken.
pub open spec fn bres_valid(
    x1: int,
    y1: int,
    dx: int,
    dy: int,
    sx: int,
    sy: int,
    x: int,
    y: int,
    err: int,
) -> bool {
    &&& (sx == 1 || sx == -1)
    &&& (sy == 1 || sy == -1)
    &&& dx >= 0
    &&& dy >= 0
    &&& 0 <= sx * (x1 - x) <= dx
    &&& 0 <= sy * (y1 - y) <= dy
    &&& err == dx - dy - (dx - sx * (x1 - x)) * dy + (dy - sy * (y1 - y)) * dx
}

/// One Bresenham step from a valid state that has not reached the end
/// point yields a valid state, and the remaining distance shrinks.
pub proof fn lemma_bres_step(
    x1: int,
    y1: int,
    dx: int,
    dy: int,
    sx: int,
    sy: int,
    x: int,
    y: int,
    err: int,
    xn: int,
    yn: int,
    errn: int,
)
    requires
        bres_valid(x1, y1, dx, dy, sx, sy, x, y, err),
        !(x == x1 && y == y1),
        xn == (if 2 * err > -dy {
            x + sx
        } else {
            x
        }),
        yn == (if 2 * err < dx {
            y + sy
        } else {
            y
        }),
        errn == (if 2 * err > -dy {
            err - dy
        } else {
            err
        }) + (if 2 * err < dx {
            dx
        } else {
            0
        }),
    ensures
        bres_valid(x1, y1, dx, dy, sx, sy, xn, yn, errn),
        0 <= sx * (x1 - xn) + sy * (y1 - yn) < sx * (x1 - x) + sy * (y1 - y),
{
    let remx = sx * (x1 - x);
    let remy = sy * (y1 - y);
    assert(remx == 0 ==> x == x1) by (nonlinear_arith)
        requires
            (sx == 1 || sx == -1),
            remx == sx * (x1 - x),
    ;
    assert(remy == 0 ==> y == y1) by (nonlinear_arith)
        requires
            (sy == 1 || sy == -1),
            remy == sy * (y1 - y),
    ;
    if remx == 0 {
        // the x axis is finished, so the x condition cannot fire
        assert(remy >= 1);
        assert(2 * err <= -dy) by (nonlinear_arith)
            requires
                err == dx - dy - (dx - remx) * dy + (dy - remy) * dx,
                remx == 0,
                remy >= 1,
                dx >= 0,
                dy >= remy,
        ;
    }
    if remy == 0 {
        // the y axis is finished, so the y condition cannot fire
        assert(remx >= 1);
        assert(2 * err >= dx) by (nonlinear_arith)
            requires
                err == dx - dy - (dx - remx) * dy + (dy - remy) * dx,
                remy == 0,
                remx >= 1,
                dy >= 0,
                dx >= remx,
        ;
    }
    if !(2 * err > -dy) && !(2 * err < dx) {
        // no step at all would force dx == dy == 0, the end point
        assert(dx <= 2 * err && 2 * err <= -dy);
        assert(dx == 0 && dy == 0);
        assert(false);
    }
    assert(sx * (x1 - xn) == (if 2 * err > -dy {
        remx - 1
    } else {
        remx
    })) by (nonlinear_arith)
        requires
            (sx == 1 || sx == -1),
            remx == sx * (x1 - x),
            xn == (if 2 * err > -dy {
                x + sx
            } else {
                x
            }),
    ;
    assert(sy * (y1 - yn) == (if 2 * err < dx {
        remy - 1
    } else {
        remy
    })) by (nonlinear_arith)
        requires
            (sy == 1 || sy == -1),
            remy == sy * (y1 - y),
            yn == (if 2 * err < dx {
                y + sy
            } else {
                y
            }),
    ;
    assert(errn == dx - dy - (dx - sx * (x1 - xn)) * dy + (dy - sy * (y1 - yn)) * dx)
        by (nonlinear_arith)
        requires
            err == dx - dy - (dx - remx) * dy + (dy - remy) * dx,
            remx == sx * (x1 - x),
            remy == sy * (y1 - y),
            sx * (x1 - xn) == (if 2 * err > -dy {
                remx - 1
            } else {
                remx
            }),
            sy * (y1 - yn) == (if 2 * err < dx {
                remy - 1
            } else {
                remy
            }),
            errn == (if 2 * err > -dy {
                err - dy
            } else {
                err
            }) + (if 2 * err < dx {
                dx
            } else {
                0
            }),
    ;
}

/// Pixels the Bresenham brush walk still touches from state `(x, y, err)`
/// on: the brush disc at the current point plus everything later points
/// touch.  The end point's disc is included only when `incl` is set, as
/// the preview walks stop one stamp short of the cursor.
pub open spec fn line_state_hit(
    w: int,
    h: int,
    r: int,
    x1: int,
    y1: int,
    dx: int,
    dy: int,
    sx: int,
    sy: int,
    x: int,
    y: int,
    err: int,
    incl: bool,
    px: int,
    py: int,
) -> bool
    decreases sx * (x1 - x) + sy * (y1 - y),
        when bres_valid(x1, y1, dx, dy, sx, sy, x, y, err)
{
    if x == x1 && y == y1 {
        incl && disc_hit(w, h, x, y, r, px, py)
    } else {
        let e2 = 2 * err;
        let xn = if e2 > -dy {
            x + sx
        } else {
            x
        };
        let yn = if e2 < dx {
            y + sy
        } else {
            y
        };
        let errn = (if e2 > -dy {
            err - dy
        } else {
            err
        }) + (if e2 < dx {
            dx
        } else {
            0
        });
        proof {
            lemma_bres_step(x1, y1, dx, dy, sx, sy, x, y, err, xn, yn, errn);
        }
        disc_hit(w, h, x, y, r, px, py) || line_state_hit(
            w,
            h,
            r,
            x1,
            y1,
            dx,
            dy,
            sx,
            sy,
            xn,
            yn,
            errn,
            incl,
            px,
            py,
        )
    }
}

/// Pixels of a brush stroke of radius `r` from `(x0, y0)` to `(x1, y1)`:
/// the union of the brush discs stamped at every Bresenham point.  With
/// `incl` unset the stamp at the end point is left out.
pub open spec fn line_hit(
    w: int,
    h: int,
    r: int,
    x0: int,
    y0: int,
    x1: int,
    y1: int,
    incl: bool,
    px: int,
    py: int,
) -> bool {
    let dx = if x1 >= x0 {
        x1 - x0
    } else {
        x0 - x1
    };
    let dy = if y1 >= y0 {
        y1 - y0
    } else {
        y0 - y1
    };
    let sx: int = if x0 < x1 {
        1
    } else {
        -1
    };
    let sy: int = if y0 < y1 {
        1
    } else {
        -1
    };
    line_state_hit(w, h, r, x1, y1, dx, dy, sx, sy, x0, y0, dx - dy, incl, px, py)
}

/// The start state of the Bresenham walk is valid.
pub proof fn lemma_bres_init(x0: int, y0: int, x1: int, y1: int)
    ensures
        ({
            let dx = if x1 >= x0 {
                x1 - x0
            } else {
                x0 - x1
            };
            let dy = if y1 >= y0 {
                y1 - y0
            } else {
                y0 - y1
            };
            let sx: int = if x0 < x1 {
                1
            } else {
                -1
            };
            let sy: int = if y0 < y1 {
                1
            } else {
                -1
            };
            bres_valid(x1, y1, dx, dy, sx, sy, x0, y0, dx - dy)
        }),
{
    let dx = if x1 >= x0 {
        x1 - x0
    } else {
        x0 - x1
    };
    let dy = if y1 >= y0 {
        y1 - y0
    } else {
        y0 - y1
    };
    let sx: int = if x0 < x1 {
        1
    } else {
        -1
    };
    let sy: int = if y0 < y1 {
        1
    } else {
        -1
    };
    assert(sx * (x1 - x0) == dx && sy * (y1 - y0) == dy) by (nonlinear_arith)
        requires
            dx == (if x1 >= x0 {
                x1 - x0
            } else {
                x0 - x1
            }),
            dy == (if y1 >= y0 {
                y1 - y0
            } else {
                y0 - y1
            }),
            sx == (if x0 < x1 {
                1int
            } else {
                -1int
            }),
            sy == (if y0 < y1 {
                1int
            } else {
                -1int
            }),
    ;
    assert(dx - dy == dx - dy - (dx - sx * (x1 - x0)) * dy + (dy - sy * (y1 - y0)) * dx)
        by (nonlinear_arith)
        requires
            sx * (x1 - x0) == dx,
            sy * (y1 - y0) == dy,
    ;
}

/// Stamp the brush disc along the Bresenham walk from `(x0, y0)` to
/// `(x1, y1)`, filling with `color`; the stamp at the end point is made
/// only when `include_end` is set.
pub fn line_fill(
    buf: &mut Vec<u32>,
    w: i32,
    h: i32,
    x0: i64,
    y0: i64,
    x1: i64,
    y1: i64,
    r: i64,
    include_end: bool,
    color: u32,
)
    requires
        1 <= w,
        1 <= h,
        (w as int) * (h as int) == old(buf)@.len(),
        (w as int) * (h as int) <= i32::MAX,
        0 <= r <= 0x4000,
        i32::MIN <= x0 <= i32::MAX,
        i32::MIN <= y0 <= i32::MAX,
        i32::MIN <= x1 <= i32::MAX,
        i32::MIN <= y1 <= i32::MAX,
    ensures
        final(buf)@.len() == old(buf)@.len(),
        forall|px: int, py: int|
            0 <= px < w && 0 <= py < h ==> #[trigger] pix(final(buf)@, w as int, px, py) == (
            if line_hit(
                w as int,
                h as int,
                r as int,
                x0 as int,
                y0 as int,
                x1 as int,
                y1 as int,
                include_end,
                px,
                py,
            ) {
                color
            } else {
                pix(old(buf)@, w as int, px, py)
            }),
{
    let ghost prev = buf@;
    let ghost wi = w as int;
    let ghost hi = h as int;
    let ghost ri = r as int;
    let ghost x0i = x0 as int;
    let ghost y0i = y0 as int;
    let ghost x1i = x1 as int;
    let ghost y1i = y1 as int;
    let dx: i64 = if x1 >= x0 {
        x1 - x0
    } else {
        x0 - x1
    };
    let dy: i64 = if y1 >= y0 {
        y1 - y0
    } else {
        y0 - y1
    };
    let sx: i64 = if x0 < x1 {
        1
    } else {
        -1
    };
    let sy: i64 = if y0 < y1 {
        1
    } else {
        -1
    };
    let ghost dxi = dx as int;
    let ghost dyi = dy as int;
    let ghost sxi = sx as int;
    let ghost syi = sy as int;
    let mut err: i64 = dx - dy;
    let mut x: i64 = x0;
    let mut y: i64 = y0;
    proof {
        lemma_bres_init(x0i, y0i, x1i, y1i);
    }
    while x != x1 || y != y1
        invariant
            1 <= w,
            1 <= h,
            wi == w as int,
            hi == h as int,
            ri == r as int,
            x0i == x0 as int,
            y0i == y0 as int,
            x1i == x1 as int,
            y1i == y1 as int,
            dxi == dx as int,
            dyi == dy as int,
            sxi == sx as int,
            syi == sy as int,
            dxi == (if x1i >= x0i {
                x1i - x0i
            } else {
                x0i - x1i
            }),
            dyi == (if y1i >= y0i {
                y1i - y0i
            } else {
                y0i - y1i
            }),
            sxi == (if x0i < x1i {
                1int
            } else {
                -1int
            }),
            syi == (if y0i < y1i {
                1int
            } else {
                -1int
            }),
            i32::MIN <= x0 <= i32::MAX,
            i32::MIN <= y0 <= i32::MAX,
            i32::MIN <= x1 <= i32::MAX,
            i32::MIN <= y1 <= i32::MAX,
            i32::MIN <= x <= i32::MAX,
            i32::MIN <= y <= i32::MAX,
            0 <= r <= 0x4000,
            buf@.len() == prev.len(),
            prev.len() == wi * hi,
            wi * hi <= i32::MAX,
            bres_valid(x1i, y1i, dxi, dyi, sxi, syi, x as int, y as int, err as int),
            -2 * dyi <= err <= 2 * dxi,
            forall|px: int, py: int|
                #[trigger] line_state_hit(
                    wi,
                    hi,
                    ri,
                    x1i,
                    y1i,
                    dxi,
                    dyi,
                    sxi,
                    syi,
                    x as int,
                    y as int,
                    err as int,
                    include_end,
                    px,
                    py,
                ) ==> line_hit(wi, hi, ri, x0i, y0i, x1i, y1i, include_end, px, py),
            forall|px: int, py: int|
                0 <= px < wi && 0 <= py < hi && !line_state_hit(
                    wi,
                    hi,
                    ri,
                    x1i,
                    y1i,
                    dxi,
                    dyi,
                    sxi,
                    syi,
                    x as int,
                    y as int,
                    err as int,
                    include_end,
                    px,
                    py,
                ) ==> #[trigger] pix(buf@, wi, px, py) == (if line_hit(
                    wi,
                    hi,
                    ri,
                    x0i,
                    y0i,
                    x1i,
                    y1i,
                    include_end,
                    px,
                    py,
                ) {
                    color
                } else {
                    pix(prev, wi, px, py)
                }),
        decreases sxi * (x1i - x as int) + syi * (y1i - y as int),
    {
        let ghost xa = x as int;
        let ghost ya = y as int;
        let ghost erra = err as int;
        disc_fill(buf, w, h, x, y, r, color);
        let e2: i64 = 2 * err;
        if e2 > -dy {
            err = err - dy;
            x = x + sx;
        }
        if e2 < dx {
            err = err + dx;
            y = y + sy;
        }
        proof {
            lemma_bres_step(
                x1i,
                y1i,
                dxi,
                dyi,
                sxi,
                syi,
                xa,
                ya,
                erra,
                x as int,
                y as int,
                err as int,
            );
            assert forall|px: int, py: int|
                #[trigger] line_state_hit(
                    wi,
                    hi,
                    ri,
                    x1i,
                    y1i,
                    dxi,
                    dyi,
                    sxi,
                    syi,
                    x as int,
                    y as int,
                    err as int,
                    include_end,
                    px,
                    py,
                ) implies line_hit(wi, hi, ri, x0i, y0i, x1i, y1i, include_end, px, py) by {
                assert(line_state_hit(
                    wi,
                    hi,
                    ri,
                    x1i,
                    y1i,
                    dxi,
                    dyi,
                    sxi,
                    syi,
                    xa,
                    ya,
                    erra,
                    include_end,
                    px,
                    py,
                ) == (disc_hit(wi, hi, xa, ya, ri, px, py) || line_state_hit(
                    wi,
                    hi,
                    ri,
                    x1i,
                    y1i,
                    dxi,
                    dyi,
                    sxi,
                    syi,
                    x as int,
                    y as int,
                    err as int,
                    include_end,
                    px,
                    py,
                )));
            }
            assert forall|px: int, py: int|
                0 <= px < wi && 0 <= py < hi && !line_state_hit(
                    wi,
                    hi,
                    ri,
                    x1i,
                    y1i,
                    dxi,
                    dyi,
                    sxi,
                    syi,
                    x as int,
                    y as int,
                    err as int,
                    include_end,
                    px,
                    py,
                ) implies #[trigger] pix(buf@, wi, px, py) == (if line_hit(
                    wi,
                    hi,
                    ri,
                    x0i,
                    y0i,
                    x1i,
                    y1i,
                    include_end,
                    px,
                    py,
                ) {
                    color
                } else {
                    pix(prev, wi, px, py)
                }) by {
                assert(line_state_hit(
                    wi,
                    hi,
                    ri,
                    x1i,
                    y1i,
                    dxi,
                    dyi,
                    sxi,
                    syi,
                    xa,
                    ya,
                    erra,
                    include_end,
                    px,
                    py,
                ) == (disc_hit(wi, hi, xa, ya, ri, px, py) || line_state_hit(
                    wi,
                    hi,
                    ri,
                    x1i,
                    y1i,
                    dxi,
                    dyi,
                    sxi,
                    syi,
                    x as int,
                    y as int,
                    err as int,
                    include_end,
                    px,
                    py,
                )));
            }
        }
    }
    if include_end {
        disc_fill(buf, w, h, x, y, r, color);
        proof {
            assert forall|px: int, py: int| 0 <= px < wi && 0 <= py < hi implies #[trigger] pix(
                buf@,
                wi,
                px,
                py,
            ) == (if line_hit(wi, hi, ri, x0i, y0i, x1i, y1i, include_end, px, py) {
                color
            } else {
                pix(prev, wi, px, py)
            }) by {
                assert(line_state_hit(
                    wi,
                    hi,
                    ri,
                    x1i,
                    y1i,
                    dxi,
                    dyi,
                    sxi,
                    syi,
                    x1i,
                    y1i,
                    err as int,
                    include_end,
                    px,
                    py,
                ) == (include_end && disc_hit(wi, hi, x1i, y1i, ri, px, py)));
            }
        }
    } else {
        proof {
            assert forall|px: int, py: int| 0 <= px < wi && 0 <= py < hi implies #[trigger] pix(
                buf@,
                wi,
                px,
                py,
            ) == (if line_hit(wi, hi, ri, x0i, y0i, x1i, y1i, include_end, px, py) {
                color
            } else {
                pix(prev, wi, px, py)
            }) by {
                assert(line_state_hit(
                    wi,
                    hi,
                    ri,
                    x1i,
                    y1i,
                    dxi,
                    dyi,
                    sxi,
                    syi,
                    x1i,
                    y1i,
                    err as int,
                    include_end,
                    px,
                    py,
                ) == (include_end && disc_hit(wi, hi, x1i, y1i, ri, px, py)));
            }
        }
    }
}

/// Restore the brush discs along the Bresenham walk from `(x0, y0)` to
/// `(x1, y1)` on the presentable buffer from the persisted drawing buffer
/// and background; the stamp at the end point is restored only when
/// `include_end` is set.
pub fn line_restore(
    buf: &mut Vec<u32>,
    drawing: &Vec<u32>,
    w: i32,
    h: i32,
    x0: i64,
    y0: i64,
    x1: i64,
    y1: i64,
    r: i64,
    include_end: bool,
    bg: u32,
)
    requires
        1 <= w,
        1 <= h,
        (w as int) * (h as int) == old(buf)@.len(),
        (w as int) * (h as int) == drawing@.len(),
        (w as int) * (h as int) <= i32::MAX,
        0 <= r <= 0x4000,
        i32::MIN <= x0 <= i32::MAX,
        i32::MIN <= y0 <= i32::MAX,
        i32::MIN <= x1 <= i32::MAX,
        i32::MIN <= y1 <= i32::MAX,
    ensures
        final(buf)@.len() == old(buf)@.len(),
        forall|px: int, py: int|
            0 <= px < w && 0 <= py < h ==> #[trigger] pix(final(buf)@, w as int, px, py) == (
            if line_hit(
                w as int,
                h as int,
                r as int,
                x0 as int,
                y0 as int,
                x1 as int,
                y1 as int,
                include_end,
                px,
                py,
            ) {
                restore_val(drawing@, w as int, bg, px, py)
            } else {
                pix(old(buf)@, w as int, px, py)
            }),
{
    let ghost prev = buf@;
    let ghost wi = w as int;
    let ghost hi = h as int;
    let ghost ri = r as int;
    let ghost x0i = x0 as int;
    let ghost y0i = y0 as int;
    let ghost x1i = x1 as int;
    let ghost y1i = y1 as int;
    let dx: i64 = if x1 >= x0 {
        x1 - x0
    } else {
        x0 - x1
    };
    let dy: i64 = if y1 >= y0 {
        y1 - y0
    } else {
        y0 - y1
    };
    let sx: i64 = if x0 < x1 {
        1
    } else {
        -1
    };
    let sy: i64 = if y0 < y1 {
        1
    } else {
        -1
    };
    let ghost dxi = dx as int;
    let ghost dyi = dy as int;
    let ghost sxi = sx as int;
    let ghost syi = sy as int;
    let mut err: i64 = dx - dy;
    let mut x: i64 = x0;
    let mut y: i64 = y0;
    proof {
        lemma_bres_init(x0i, y0i, x1i, y1i);
    }
    while x != x1 || y != y1
        invariant
            1 <= w,
            1 <= h,
            wi == w as int,
            hi == h as int,
            ri == r as int,
            x0i == x0 as int,
            y0i == y0 as int,
            x1i == x1 as int,
            y1i == y1 as int,
            dxi == dx as int,
            dyi == dy as int,
            sxi == sx as int,
            syi == sy as int,
            dxi == (if x1i >= x0i {
                x1i - x0i
            } else {
                x0i - x1i
            }),
            dyi == (if y1i >= y0i {
                y1i - y0i
            } else {
                y0i - y1i
            }),
            sxi == (if x0i < x1i {
                1int
            } else {
                -1int
            }),
            syi == (if y0i < y1i {
                1int
            } else {
                -1int
            }),
            i32::MIN <= x0 <= i32::MAX,
            i32::MIN <= y0 <= i32::MAX,
            i32::MIN <= x1 <= i32::MAX,
            i32::MIN <= y1 <= i32::MAX,
            i32::MIN <= x <= i32::MAX,
            i32::MIN <= y <= i32::MAX,
            0 <= r <= 0x4000,
            buf@.len() == prev.len(),
            prev.len() == wi * hi,
            drawing@.len() == wi * hi,
            wi * hi <= i32::MAX,
            bres_valid(x1i, y1i, dxi, dyi, sxi, syi, x as int, y as int, err as int),
            -2 * dyi <= err <= 2 * dxi,
            forall|px: int, py: int|
                #[trigger] line_state_hit(
                    wi,
                    hi,
                    ri,
                    x1i,
                    y1i,
                    dxi,
                    dyi,
                    sxi,
                    syi,
                    x as int,
                    y as int,
                    err as int,
                    include_end,
                    px,
                    py,
                ) ==> line_hit(wi, hi, ri, x0i, y0i, x1i, y1i, include_end, px, py),
            forall|px: int, py: int|
                0 <= px < wi && 0 <= py < hi && !line_state_hit(
                    wi,
                    hi,
                    ri,
                    x1i,
                    y1i,
                    dxi,
                    dyi,
                    sxi,
                    syi,
                    x as int,
                    y as int,
                    err as int,
                    include_end,
                    px,
                    py,
                ) ==> #[trigger] pix(buf@, wi, px, py) == (if line_hit(
                    wi,
                    hi,
                    ri,
                    x0i,
                    y0i,
                    x1i,
                    y1i,
                    include_end,
                    px,
                    py,
                ) {
                    restore_val(drawing@, wi, bg, px, py)
                } else {
                    pix(prev, wi, px, py)
                }),
        decreases sxi * (x1i - x as int) + syi * (y1i - y as int),
    {
        let ghost xa = x as int;
        let ghost ya = y as int;
        let ghost erra = err as int;
        disc_restore(buf, drawing, w, h, x, y, r, bg);
        let e2: i64 = 2 * err;
        if e2 > -dy {
            err = err - dy;
            x = x + sx;
        }
        if e2 < dx {
            err = err + dx;
            y = y + sy;
        }
        proof {
            lemma_bres_step(
                x1i,
                y1i,
                dxi,
                dyi,
                sxi,
                syi,
                xa,
                ya,
                erra,
                x as int,
                y as int,
                err as int,
            );
            assert forall|px: int, py: int|
                #[trigger] line_state_hit(
                    wi,
                    hi,
                    ri,
                    x1i,
                    y1i,
                    dxi,
                    dyi,
                    sxi,
                    syi,
                    x as int,
                    y as int,
                    err as int,
                    include_end,
                    px,
                    py,
                ) implies line_hit(wi, hi, ri, x0i, y0i, x1i, y1i, include_end, px, py) by {
                assert(line_state_hit(
                    wi,
                    hi,
                    ri,
                    x1i,
                    y1i,
                    dxi,
                    dyi,
                    sxi,
                    syi,
                    xa,
                    ya,
                    erra,
                    include_end,
                    px,
                    py,
                ) == (disc_hit(wi, hi, xa, ya, ri, px, py) || line_state_hit(
                    wi,
                    hi,
                    ri,
                    x1i,
                    y1i,
                    dxi,
                    dyi,
                    sxi,
                    syi,
                    x as int,
                    y as int,
                    err as int,
                    include_end,
                    px,
                    py,
                )));
            }
            assert forall|px: int, py: int|
                0 <= px < wi && 0 <= py < hi && !line_state_hit(
                    wi,
                    hi,
                    ri,
                    x1i,
                    y1i,
                    dxi,
                    dyi,
                    sxi,
                    syi,
                    x as int,
                    y as int,
                    err as int,
                    include_end,
                    px,
                    py,
                ) implies #[trigger] pix(buf@, wi, px, py) == (if line_hit(
                    wi,
                    hi,
                    ri,
                    x0i,
                    y0i,
                    x1i,
                    y1i,
                    include_end,
                    px,
                    py,
                ) {
                    restore_val(drawing@, wi, bg, px, py)
                } else {
                    pix(prev, wi, px, py)
                }) by {
                assert(line_state_hit(
                    wi,
                    hi,
                    ri,
                    x1i,
                    y1i,
                    dxi,
                    dyi,
                    sxi,
                    syi,
                    xa,
                    ya,
                    erra,
                    include_end,
                    px,
                    py,
                ) == (disc_hit(wi, hi, xa, ya, ri, px, py) || line_state_hit(
                    wi,
                    hi,
                    ri,
                    x1i,
                    y1i,
                    dxi,
                    dyi,
                    sxi,
                    syi,
                    x as int,
                    y as int,
                    err as int,
                    include_end,
                    px,
                    py,
                )));
            }
        }
    }
    if include_end {
        disc_restore(buf, drawing, w, h, x, y, r, bg);
        proof {
            assert forall|px: int, py: int| 0 <= px < wi && 0 <= py < hi implies #[trigger] pix(
                buf@,
                wi,
                px,
                py,
            ) == (if line_hit(wi, hi, ri, x0i, y0i, x1i, y1i, include_end, px, py) {
                restore_val(drawing@, wi, bg, px, py)
            } else {
                pix(prev, wi, px, py)
            }) by {
                assert(line_state_hit(
                    wi,
                    hi,
                    ri,
                    x1i,
                    y1i,
                    dxi,
                    dyi,
                    sxi,
                    syi,
                    x1i,
                    y1i,
                    err as int,
                    include_end,
                    px,
                    py,
                ) == (include_end && disc_hit(wi, hi, x1i, y1i, ri, px, py)));
            }
        }
    } else {
        proof {
            assert forall|px: int, py: int| 0 <= px < wi && 0 <= py < hi implies #[trigger] pix(
                buf@,
                wi,
                px,
                py,
            ) == (if line_hit(wi, hi, ri, x0i, y0i, x1i, y1i, include_end, px, py) {
                restore_val(drawing@, wi, bg, px, py)
            } else {
                pix(prev, wi, px, py)
            }) by {
                assert(line_state_hit(
                    wi,
                    hi,
                    ri,
                    x1i,
                    y1i,
                    dxi,
                    dyi,
                    sxi,
                    syi,
                    x1i,
                    y1i,
                    err as int,
                    include_end,
                    px,
                    py,
                ) == (include_end && disc_hit(wi, hi, x1i, y1i, ri, px, py)));
            }
        }
    }
}

/// One column stamp of the two horizontal edges of a square outline:
/// the brush discs at `(c, ymin)` and `(c, ymax)`.
pub open spec fn top_bottom_hit(
    w: int,
    h: int,
    r: int,
    ymin: int,
    ymax: int,
    c: int,
    px: int,
    py: int,
) -> bool {
    disc_hit(w, h, c, ymin, r, px, py) || disc_hit(w, h, c, ymax, r, px, py)
}

/// One row stamp of the two vertical edges of a square outline: the
/// brush discs at `(xmin, c)` and `(xmax, c)`.
pub open spec fn left_right_hit(
    w: int,
    h: int,
    r: int,
    xmin: int,
    xmax: int,
    c: int,
    px: int,
    py: int,
) -> bool {
    disc_hit(w, h, xmin, c, r, px, py) || disc_hit(w, h, xmax, c, r, px, py)
}

/// The smaller of two coordinates.
pub open spec fn imin(a: int, b: int) -> int {
    if a <= b {
        a
    } else {
        b
    }
}

/// The larger of two coordinates.
pub open spec fn imax(a: int, b: int) -> int {
    if a <= b {
        b
    } else {
        a
    }
}

/// Pixels of the square outline with opposite corners `(x0, y0)` and
/// `(x1, y1)`, traced with brush stamps of radius `r` along all four
/// edges.
pub open spec fn square_hit(
    w: int,
    h: int,
    r: int,
    x0: int,
    y0: int,
    x1: int,
    y1: int,
    px: int,
    py: int,
) -> bool {
    ||| (exists|c: int|
        imin(x0, x1) <= c <= imax(x0, x1) && #[trigger] top_bottom_hit(
            w,
            h,
            r,
            imin(y0, y1),
            imax(y0, y1),
            c,
            px,
            py,
        ))
    ||| (exists|c: int|
        imin(y0, y1) <= c <= imax(y0, y1) && #[trigger] left_right_hit(
            w,
            h,
            r,
            imin(x0, x1),
            imax(x0, x1),
            c,
            px,
            py,
        ))
}

/// Unfold `square_hit` into its two edge families for given corner
/// bounds.
proof fn lemma_square_hit_unfold(
    w: int,
    h: int,
    r: int,
    x0: int,
    y0: int,
    x1: int,
    y1: int,
    xmin: int,
    xmax: int,
    ymin: int,
    ymax: int,
    px: int,
    py: int,
)
    requires
        xmin == imin(x0, x1),
        xmax == imax(x0, x1),
        ymin == imin(y0, y1),
        ymax == imax(y0, y1),
    ensures
        square_hit(w, h, r, x0, y0, x1, y1, px, py) == ((exists|c: int|
            xmin <= c <= xmax && #[trigger] top_bottom_hit(w, h, r, ymin, ymax, c, px, py)) || (
        exists|c: int|
            ymin <= c <= ymax && #[trigger] left_right_hit(w, h, r, xmin, xmax, c, px, py))),
{
}

/// Trace the square outline with opposite corners `(x0, y0)` and
/// `(x1, y1)` in brush stamps of radius `r`, filling with `color`.
pub fn square_fill(
    buf: &mut Vec<u32>,
    w: i32,
    h: i32,
    x0: i64,
    y0: i64,
    x1: i64,
    y1: i64,
    r: i64,
    color: u32,
)
    requires
        1 <= w,
        1 <= h,
        (w as int) * (h as int) == old(buf)@.len(),
        (w as int) * (h as int) <= i32::MAX,
        0 <= r <= 0x4000,
        i32::MIN <= x0 <= i32::MAX,
        i32::MIN <= y0 <= i32::MAX,
        i32::MIN <= x1 <= i32::MAX,
        i32::MIN <= y1 <= i32::MAX,
    ensures
        final(buf)@.len() == old(buf)@.len(),
        forall|px: int, py: int|
            0 <= px < w && 0 <= py < h ==> #[trigger] pix(final(buf)@, w as int, px, py) == (
            if square_hit(
                w as int,
                h as int,
                r as int,
                x0 as int,
                y0 as int,
                x1 as int,
                y1 as int,
                px,
                py,
            ) {
                color
            } else {
                pix(old(buf)@, w as int, px, py)
            }),
{
    let ghost prev = buf@;
    let ghost wi = w as int;
    let ghost hi = h as int;
    let ghost ri = r as int;
    let xmin: i64 = if x0 <= x1 {
        x0
    } else {
        x1
    };
    let xmax: i64 = if x0 <= x1 {
        x1
    } else {
        x0
    };
    let ymin: i64 = if y0 <= y1 {
        y0
    } else {
        y1
    };
    let ymax: i64 = if y0 <= y1 {
        y1
    } else {
        y0
    };
    let ghost xmini = xmin as int;
    let ghost xmaxi = xmax as int;
    let ghost ymini = ymin as int;
    let ghost ymaxi = ymax as int;
    let mut c: i64 = xmin;
    while c <= xmax
        invariant
            1 <= w,
            1 <= h,
            wi == w as int,
            hi == h as int,
            ri == r as int,
            xmini == xmin as int,
            xmaxi == xmax as int,
            ymini == ymin as int,
            ymaxi == ymax as int,
            i32::MIN <= xmin <= i32::MAX,
            i32::MIN <= xmax <= i32::MAX,
            i32::MIN <= ymin <= i32::MAX,
            i32::MIN <= ymax <= i32::MAX,
            0 <= r <= 0x4000,
            buf@.len() == prev.len(),
            prev.len() == wi * hi,
            wi * hi <= i32::MAX,
            xmini <= c <= xmaxi + 1,
            forall|px: int, py: int|
                0 <= px < wi && 0 <= py < hi ==> #[trigger] pix(buf@, wi, px, py) == (if (
                exists|cc: int|
                    xmini <= cc < c && #[trigger] top_bottom_hit(
                        wi,
                        hi,
                        ri,
                        ymini,
                        ymaxi,
                        cc,
                        px,
                        py,
                    )) {
                    color
                } else {
                    pix(prev, wi, px, py)
                }),
        decreases xmaxi + 1 - c,
    {
        let ghost c0 = c as int;
        let ghost mid = buf@;
        disc_fill(buf, w, h, c, ymin, r, color);
        disc_fill(buf, w, h, c, ymax, r, color);
        proof {
            assert forall|px: int, py: int| 0 <= px < wi && 0 <= py < hi implies #[trigger] pix(
                buf@,
                wi,
                px,
                py,
            ) == (if (exists|cc: int|
                xmini <= cc < c0 + 1 && #[trigger] top_bottom_hit(
                    wi,
                    hi,
                    ri,
                    ymini,
                    ymaxi,
                    cc,
                    px,
                    py,
                )) {
                color
            } else {
                pix(prev, wi, px, py)
            }) by {
                assert(top_bottom_hit(wi, hi, ri, ymini, ymaxi, c0, px, py) == (disc_hit(
                    wi,
                    hi,
                    c0,
                    ymini,
                    ri,
                    px,
                    py,
                ) || disc_hit(wi, hi, c0, ymaxi, ri, px, py)));
            }
        }
        c = c + 1;
    }
    let mut cy: i64 = ymin;
    while cy <= ymax
        invariant
            1 <= w,
            1 <= h,
            wi == w as int,
            hi == h as int,
            ri == r as int,
            xmini == xmin as int,
            xmaxi == xmax as int,
            ymini == ymin as int,
            ymaxi == ymax as int,
            i32::MIN <= xmin <= i32::MAX,
            i32::MIN <= xmax <= i32::MAX,
            i32::MIN <= ymin <= i32::MAX,
            i32::MIN <= ymax <= i32::MAX,
            0 <= r <= 0x4000,
            buf@.len() == prev.len(),
            prev.len() == wi * hi,
            wi * hi <= i32::MAX,
            ymini <= cy <= ymaxi + 1,
            forall|px: int, py: int|
                0 <= px < wi && 0 <= py < hi ==> #[trigger] pix(buf@, wi, px, py) == (if (
                exists|cc: int|
                    xmini <= cc <= xmaxi && #[trigger] top_bottom_hit(
                        wi,
                        hi,
                        ri,
                        ymini,
                        ymaxi,
                        cc,
                        px,
                        py,
                    )) || (exists|cc: int|
                    ymini <= cc < cy && #[trigger] left_right_hit(
                        wi,
                        hi,
                        ri,
                        xmini,
                        xmaxi,
                        cc,
                        px,
                        py,
                    )) {
                    color
                } else {
                    pix(prev, wi, px, py)
                }),
        decreases ymaxi + 1 - cy,
    {
        let ghost c0 = cy as int;
        let ghost mid = buf@;
        disc_fill(buf, w, h, xmin, cy, r, color);
        disc_fill(buf, w, h, xmax, cy, r, color);
        proof {
            assert forall|px: int, py: int| 0 <= px < wi && 0 <= py < hi implies #[trigger] pix(
                buf@,
                wi,
                px,
                py,
            ) == (if (exists|cc: int|
                xmini <= cc <= xmaxi && #[trigger] top_bottom_hit(
                    wi,
                    hi,
                    ri,
                    ymini,
                    ymaxi,
                    cc,
                    px,
                    py,
                )) || (exists|cc: int|
                ymini <= cc < c0 + 1 && #[trigger] left_right_hit(
                    wi,
                    hi,
                    ri,
                    xmini,
                    xmaxi,
                    cc,
                    px,
                    py,
                )) {
                color
            } else {
                pix(prev, wi, px, py)
            }) by {
                assert(left_right_hit(wi, hi, ri, xmini, xmaxi, c0, px, py) == (disc_hit(
                    wi,
                    hi,
                    xmini,
                    c0,
                    ri,
                    px,
                    py,
                ) || disc_hit(wi, hi, xmaxi, c0, ri, px, py)));
            }
        }
        cy = cy + 1;
    }
    proof {
        assert forall|px: int, py: int| 0 <= px < wi && 0 <= py < hi implies #[trigger] pix(
            buf@,
            wi,
            px,
            py,
        ) == (if square_hit(wi, hi, ri, x0 as int, y0 as int, x1 as int, y1 as int, px, py) {
            color
        } else {
            pix(prev, wi, px, py)
        }) by {
            assert((exists|cc: int|
                ymini <= cc < cy as int && #[trigger] left_right_hit(
                    wi,
                    hi,
                    ri,
                    xmini,
                    xmaxi,
                    cc,
                    px,
                    py,
                )) <==> (exists|cc: int|
                ymini <= cc <= ymaxi && #[trigger] left_right_hit(
                    wi,
                    hi,
                    ri,
                    xmini,
                    xmaxi,
                    cc,
                    px,
                    py,
                )));
            lemma_square_hit_unfold(
                wi,
                hi,
                ri,
                x0 as int,
                y0 as int,
                x1 as int,
                y1 as int,
                xmini,
                xmaxi,
                ymini,
                ymaxi,
                px,
                py,
            );
            assert(square_hit(wi, hi, ri, x0 as int, y0 as int, x1 as int, y1 as int, px, py) == (
            (exists|cc: int|
                xmini <= cc <= xmaxi && #[trigger] top_bottom_hit(
                    wi,
                    hi,
                    ri,
                    ymini,
                    ymaxi,
                    cc,
                    px,
                    py,
                )) || (exists|cc: int|
                ymini <= cc <= ymaxi && #[trigger] left_right_hit(
                    wi,
                    hi,
                    ri,
                    xmini,
                    xmaxi,
                    cc,
                    px,
                    py,
                ))));
        }
    }
}

/// Restore the square-outline brush stamps with opposite corners
/// `(x0, y0)` and `(x1, y1)` on the presentable buffer from the
/// persisted drawing buffer and background.
pub fn square_restore(
    buf: &mut Vec<u32>,
    drawing: &Vec<u32>,
    w: i32,
    h: i32,
    x0: i64,
    y0: i64,
    x1: i64,
    y1: i64,
    r: i64,
    bg: u32,
)
    requires
        1 <= w,
        1 <= h,
        (w as int) * (h as int) == old(buf)@.len(),
        (w as int) * (h as int) == drawing@.len(),
        (w as int) * (h as int) <= i32::MAX,
        0 <= r <= 0x4000,
        i32::MIN <= x0 <= i32::MAX,
        i32::MIN <= y0 <= i32::MAX,
        i32::MIN <= x1 <= i32::MAX,
        i32::MIN <= y1 <= i32::MAX,
    ensures
        final(buf)@.len() == old(buf)@.len(),
        forall|px: int, py: int|
            0 <= px < w && 0 <= py < h ==> #[trigger] pix(final(buf)@, w as int, px, py) == (
            if square_hit(
                w as int,
                h as int,
                r as int,
                x0 as int,
                y0 as int,
                x1 as int,
                y1 as int,
                px,
                py,
            ) {
                restore_val(drawing@, w as int, bg, px, py)
            } else {
                pix(old(buf)@, w as int, px, py)
            }),
{
    let ghost prev = buf@;
    let ghost wi = w as int;
    let ghost hi = h as int;
    let ghost ri = r as int;
    let xmin: i64 = if x0 <= x1 {
        x0
    } else {
        x1
    };
    let xmax: i64 = if x0 <= x1 {
        x1
    } else {
        x0
    };
    let ymin: i64 = if y0 <= y1 {
        y0
    } else {
        y1
    };
    let ymax: i64 = if y0 <= y1 {
        y1
    } else {
        y0
    };
    let ghost xmini = xmin as int;
    let ghost xmaxi = xmax as int;
    let ghost ymini = ymin as int;
    let ghost ymaxi = ymax as int;
    let mut c: i64 = xmin;
    while c <= xmax
        invariant
            1 <= w,
            1 <= h,
            wi == w as int,
            hi == h as int,
            ri == r as int,
            xmini == xmin as int,
            xmaxi == xmax as int,
            ymini == ymin as int,
            ymaxi == ymax as int,
            i32::MIN <= xmin <= i32::MAX,
            i32::MIN <= xmax <= i32::MAX,
            i32::MIN <= ymin <= i32::MAX,
            i32::MIN <= ymax <= i32::MAX,
            0 <= r <= 0x4000,
            buf@.len() == prev.len(),
            prev.len() == wi * hi,
            drawing@.len() == wi * hi,
            wi * hi <= i32::MAX,
            xmini <= c <= xmaxi + 1,
            forall|px: int, py: int|
                0 <= px < wi && 0 <= py < hi ==> #[trigger] pix(buf@, wi, px, py) == (if (
                exists|cc: int|
                    xmini <= cc < c && #[trigger] top_bottom_hit(
                        wi,
                        hi,
                        ri,
                        ymini,
                        ymaxi,
                        cc,
                        px,
                        py,
                    )) {
                    restore_val(drawing@, wi, bg, px, py)
                } else {
                    pix(prev, wi, px, py)
                }),
        decreases xmaxi + 1 - c,
    {
        let ghost c0 = c as int;
        let ghost mid = buf@;
        disc_restore(buf, drawing, w, h, c, ymin, r, bg);
        disc_restore(buf, drawing, w, h, c, ymax, r, bg);
        proof {
            assert forall|px: int, py: int| 0 <= px < wi && 0 <= py < hi implies #[trigger] pix(
                buf@,
                wi,
                px,
                py,
            ) == (if (exists|cc: int|
                xmini <= cc < c0 + 1 && #[trigger] top_bottom_hit(
                    wi,
                    hi,
                    ri,
                    ymini,
                    ymaxi,
                    cc,
                    px,
                    py,
                )) {
                restore_val(drawing@, wi, bg, px, py)
            } else {
                pix(prev, wi, px, py)
            }) by {
                assert(top_bottom_hit(wi, hi, ri, ymini, ymaxi, c0, px, py) == (disc_hit(
                    wi,
                    hi,
                    c0,
                    ymini,
                    ri,
                    px,
                    py,
                ) || disc_hit(wi, hi, c0, ymaxi, ri, px, py)));
            }
        }
        c = c + 1;
    }
    let mut cy: i64 = ymin;
    while cy <= ymax
        invariant
            1 <= w,
            1 <= h,
            wi == w as int,
            hi == h as int,
            ri == r as int,
            xmini == xmin as int,
            xmaxi == xmax as int,
            ymini == ymin as int,
            ymaxi == ymax as int,
            i32::MIN <= xmin <= i32::MAX,
            i32::MIN <= xmax <= i32::MAX,
            i32::MIN <= ymin <= i32::MAX,
            i32::MIN <= ymax <= i32::MAX,
            0 <= r <= 0x4000,
            buf@.len() == prev.len(),
            prev.len() == wi * hi,
            drawing@.len() == wi * hi,
            wi * hi <= i32::MAX,
            ymini <= cy <= ymaxi + 1,
            forall|px: int, py: int|
                0 <= px < wi && 0 <= py < hi ==> #[trigger] pix(buf@, wi, px, py) == (if (
                exists|cc: int|
                    xmini <= cc <= xmaxi && #[trigger] top_bottom_hit(
                        wi,
                        hi,
                        ri,
                        ymini,
                        ymaxi,
                        cc,
                        px,
                        py,
                    )) || (exists|cc: int|
                    ymini <= cc < cy && #[trigger] left_right_hit(
                        wi,
                        hi,
                        ri,
                        xmini,
                        xmaxi,
                        cc,
                        px,
                        py,
                    )) {
                    restore_val(drawing@, wi, bg, px, py)
                } else {
                    pix(prev, wi, px, py)
                }),
        decreases ymaxi + 1 - cy,
    {
        let ghost c0 = cy as int;
        let ghost mid = buf@;
        disc_restore(buf, drawing, w, h, xmin, cy, r, bg);
        disc_restore(buf, drawing, w, h, xmax, cy, r, bg);
        proof {
            assert forall|px: int, py: int| 0 <= px < wi && 0 <= py < hi implies #[trigger] pix(
                buf@,
                wi,
                px,
                py,
            ) == (if (exists|cc: int|
                xmini <= cc <= xmaxi && #[trigger] top_bottom_hit(
                    wi,
                    hi,
                    ri,
                    ymini,
                    ymaxi,
                    cc,
                    px,
                    py,
                )) || (exists|cc: int|
                ymini <= cc < c0 + 1 && #[trigger] left_right_hit(
                    wi,
                    hi,
                    ri,
                    xmini,
                    xmaxi,
                    cc,
                    px,
                    py,
                )) {
                restore_val(drawing@, wi, bg, px, py)
            } else {
                pix(prev, wi, px, py)
            }) by {
                assert(left_right_hit(wi, hi, ri, xmini, xmaxi, c0, px, py) == (disc_hit(
                    wi,
                    hi,
                    xmini,
                    c0,
                    ri,
                    px,
                    py,
                ) || disc_hit(wi, hi, xmaxi, c0, ri, px, py)));
            }
        }
        cy = cy + 1;
    }
    proof {
        assert forall|px: int, py: int| 0 <= px < wi && 0 <= py < hi implies #[trigger] pix(
            buf@,
            wi,
            px,
            py,
        ) == (if square_hit(wi, hi, ri, x0 as int, y0 as int, x1 as int, y1 as int, px, py) {
            restore_val(drawing@, wi, bg, px, py)
        } else {
            pix(prev, wi, px, py)
        }) by {
            assert((exists|cc: int|
                ymini <= cc < cy as int && #[trigger] left_right_hit(
                    wi,
                    hi,
                    ri,
                    xmini,
                    xmaxi,
                    cc,
                    px,
                    py,
                )) <==> (exists|cc: int|
                ymini <= cc <= ymaxi && #[trigger] left_right_hit(
                    wi,
                    hi,
                    ri,
                    xmini,
                    xmaxi,
                    cc,
                    px,
                    py,
                )));
            lemma_square_hit_unfold(
                wi,
                hi,
                ri,
                x0 as int,
                y0 as int,
                x1 as int,
                y1 as int,
                xmini,
                xmaxi,
                ymini,
                ymaxi,
                px,
                py,
            );
            assert(square_hit(wi, hi, ri, x0 as int, y0 as int, x1 as int, y1 as int, px, py) == (
            (exists|cc: int|
                xmini <= cc <= xmaxi && #[trigger] top_bottom_hit(
                    wi,
                    hi,
                    ri,
                    ymini,
                    ymaxi,
                    cc,
                    px,
                    py,
                )) || (exists|cc: int|
                ymini <= cc <= ymaxi && #[trigger] left_right_hit(
                    wi,
                    hi,
                    ri,
                    xmini,
                    xmaxi,
                    cc,
                    px,
                    py,
                ))));
        }
    }
}

} // verus!
