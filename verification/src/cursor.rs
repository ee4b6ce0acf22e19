//! Cursor bitmap generation: RGBA byte patterns for the brush-preview
//! cursor (a filled colored disc) and the eraser cursor (two nested
//! circle outlines).  The windowing shell turns these patterns into
//! native cursors.

use vstd::prelude::*;

use crate::raster::lemma_pix_index_unique;
use crate::raster::lemma_row_in_buf;

verus! {

/// Byte `k` (0 = red, 1 = green, 2 = blue, 3 = alpha) of an ARGB color
/// in the RGBA byte order cursors use.
pub open spec fn argb_byte(color: u32, k: int) -> u8 {
    if k == 0 {
        ((color >> 16) & 0xff) as u8
    } else if k == 1 {
        ((color >> 8) & 0xff) as u8
    } else if k == 2 {
        (color & 0xff) as u8
    } else {
        ((color >> 24) & 0xff) as u8
    }
}

/// Byte `k` of the RGBA quadruple of pixel `(qx, qy)` in a pattern of
/// width `w`.
pub open spec fn pix4(s: Seq<u8>, w: int, qx: int, qy: int, k: int) -> u8 {
    s[(qy * w + qx) * 4 + k]
}

/// A byte of the quadruple of one pixel belongs to the quadruple of
/// another pixel exactly when the two pixels coincide.
proof fn lemma_byte_range(w: int, qx: int, qy: int, k: int, px: int, py: int)
    requires
        1 <= w,
        0 <= qx < w,
        0 <= qy,
        0 <= px < w,
        0 <= py,
        0 <= k < 4,
    ensures
        ((py * w + px) * 4 <= (qy * w + qx) * 4 + k < (py * w + px) * 4 + 4) <==> (qx == px && qy
            == py),
{
    if (qy * w + qx) == (py * w + px) {
        lemma_pix_index_unique(w, qx, qy, px, py);
    }
}

/// A pattern of `n` zero bytes.
fn zeroed_pattern(n: usize) -> (v: Vec<u8>)
    ensures
        v@ == Seq::new(n as nat, |i: int| 0u8),
{
    let mut v: Vec<u8> = Vec::new();
    let mut i: usize = 0;
    while i < n
        invariant
            0 <= i <= n,
            v@ == Seq::new(i as nat, |t: int| 0u8),
        decreases n - i,
    {
        v.push(0);
        proof {
            assert(v@ =~= Seq::new((i + 1) as nat, |t: int| 0u8));
        }
        i = i + 1;
    }
    v
}

/// Write the four RGBA bytes of pixel `(x, y)` of a pattern of width
/// `width`, extracted from an ARGB color.
pub fn set_pixel(cursor_pattern: &mut Vec<u8>, x: i32, y: i32, width: i32, color: u32)
    requires
        1 <= width,
        0 <= x < width,
        0 <= y,
        ((y as int) * (width as int) + (x as int)) * 4 + 4 <= old(cursor_pattern)@.len(),
        old(cursor_pattern)@.len() <= 0x7fffffff,
    ensures
        final(cursor_pattern)@.len() == old(cursor_pattern)@.len(),
        forall|j: int|
            0 <= j < old(cursor_pattern)@.len() ==> #[trigger] final(cursor_pattern)@[j] == (if ((
            (y as int) * (width as int) + (x as int)) * 4 <= j < ((y as int) * (width as int) + (
            x as int)) * 4 + 4) {
                argb_byte(color, j - ((y as int) * (width as int) + (x as int)) * 4)
            } else {
                old(cursor_pattern)@[j]
            }),
{
    let nlen: usize = cursor_pattern.len();
    proof {
        assert(0 <= ((y as int) * (width as int) + (x as int)) * 4 && ((y as int) * (width as int)
            + (x as int)) * 4 + 4 <= nlen) by (nonlinear_arith)
            requires
                0 <= y,
                0 <= x,
                1 <= width,
                ((y as int) * (width as int) + (x as int)) * 4 + 4 <= nlen,
        ;
    }
    let idx: usize = (((y as i64) * (width as i64) + (x as i64)) * 4) as usize;
    cursor_pattern.set(idx, ((color >> 16) & 0xff) as u8);
    cursor_pattern.set(idx + 1, ((color >> 8) & 0xff) as u8);
    cursor_pattern.set(idx + 2, (color & 0xff) as u8);
    cursor_pattern.set(idx + 3, ((color >> 24) & 0xff) as u8);
}

/// The eight octant points one midpoint iteration marks on a circle
/// outline around center `(c, c)`.
pub open spec fn outline_arm_hit(c: int, x: int, y: int, qx: int, qy: int) -> bool {
    ||| (qx == c + x && qy == c + y)
    ||| (qx == c + x && qy == c - y)
    ||| (qx == c - x && qy == c + y)
    ||| (qx == c - x && qy == c - y)
    ||| (qx == c + y && qy == c + x)
    ||| (qx == c + y && qy == c - x)
    ||| (qx == c - y && qy == c + x)
    ||| (qx == c - y && qy == c - x)
}

/// Outline pixels still to be marked from midpoint state `(x, y, d)`.
pub open spec fn outline_state_hit(c: int, x: int, y: int, d: int, qx: int, qy: int) -> bool
    decreases x - y + 2,
{
    if x < y {
        false
    } else {
        outline_arm_hit(c, x, y, qx, qy) || (if d <= 0 {
            outline_state_hit(c, x, y + 1, d + 2 * (y + 1) + 1, qx, qy)
        } else {
            outline_state_hit(c, x - 1, y + 1, d + 2 * ((y + 1) - (x - 1)) + 1, qx, qy)
        })
    }
}

/// Pixels of the circle outline of radius `r` around center `(c, c)`.
pub open spec fn outline_hit(r: int, c: int, qx: int, qy: int) -> bool {
    outline_state_hit(c, r, 0, 1 - r, qx, qy)
}

/// Mark the circle outline of the given radius around the pattern's
/// center `(center, center)` with the given color, one midpoint octant
/// sweep of single pixels.  A negative radius marks nothing.
pub fn paint_outline_circle(cursor_pattern: &mut Vec<u8>, radius: i32, color: u32, center: i32)
    requires
        radius <= center,
        0 <= center <= 0x1fff,
        old(cursor_pattern)@.len() == (2 * (center as int) + 1) * (2 * (center as int) + 1) * 4,
    ensures
        final(cursor_pattern)@.len() == old(cursor_pattern)@.len(),
        forall|qx: int, qy: int, k: int|
            0 <= qx < 2 * (center as int) + 1 && 0 <= qy < 2 * (center as int) + 1 && 0 <= k < 4
                ==> #[trigger] pix4(final(cursor_pattern)@, 2 * (center as int) + 1, qx, qy, k)
                == (if outline_hit(radius as int, center as int, qx, qy) {
                argb_byte(color, k)
            } else {
                pix4(old(cursor_pattern)@, 2 * (center as int) + 1, qx, qy, k)
            }),
{
    let ghost prev = cursor_pattern@;
    let ghost ci = center as int;
    let ghost ri = radius as int;
    let ghost w = 2 * ci + 1;
    proof {
        assert(w * w * 4 <= 0x7fffffff) by (nonlinear_arith)
            requires
                w == 2 * ci + 1,
                0 <= ci <= 0x1fff,
        ;
    }
    if radius < 0 {
        proof {
            assert forall|qx: int, qy: int, k: int|
                0 <= qx < w && 0 <= qy < w && 0 <= k < 4 implies #[trigger] pix4(
                cursor_pattern@,
                w,
                qx,
                qy,
                k,
            ) == (if outline_hit(ri, ci, qx, qy) {
                argb_byte(color, k)
            } else {
                pix4(prev, w, qx, qy, k)
            }) by {
                assert(!outline_state_hit(ci, ri, 0, 1 - ri, qx, qy));
            }
        }
        return ;
    }
    let width: i32 = center * 2 + 1;
    let mut x: i32 = radius;
    let mut y: i32 = 0;
    let mut d: i32 = 1 - radius;
    while x >= y
        invariant
            ci == center as int,
            ri == radius as int,
            w == 2 * ci + 1,
            width == 2 * center + 1,
            0 <= radius <= center,
            0 <= center <= 0x1fff,
            cursor_pattern@.len() == prev.len(),
            prev.len() == w * w * 4,
            prev.len() <= 0x7fffffff,
            -1 <= x <= radius,
            0 <= y <= x + 2,
            -2 * radius - 4 <= d,
            d <= 1 - radius + y * y + 6 * y,
            forall|qx: int, qy: int|
                #[trigger] outline_state_hit(ci, x as int, y as int, d as int, qx, qy)
                    ==> outline_hit(ri, ci, qx, qy),
            forall|qx: int, qy: int, k: int|
                0 <= qx < w && 0 <= qy < w && 0 <= k < 4 && !outline_state_hit(
                    ci,
                    x as int,
                    y as int,
                    d as int,
                    qx,
                    qy,
                ) ==> #[trigger] pix4(cursor_pattern@, w, qx, qy, k) == (if outline_hit(
                    ri,
                    ci,
                    qx,
                    qy,
                ) {
                    argb_byte(color, k)
                } else {
                    pix4(prev, w, qx, qy, k)
                }),
        decreases x - y + 2,
    {
        let ghost x0 = x as int;
        let ghost y0 = y as int;
        let ghost d0 = d as int;
        let ghost mid = cursor_pattern@;
        proof {
            lemma_row_in_buf(w, w, ci + y0, ci + x0);
            lemma_row_in_buf(w, w, ci - y0, ci - x0);
            lemma_row_in_buf(w, w, ci + x0, ci + y0);
            lemma_row_in_buf(w, w, ci - x0, ci - y0);
            lemma_row_in_buf(w, w, ci + y0, ci - x0);
            lemma_row_in_buf(w, w, ci - y0, ci + x0);
            lemma_row_in_buf(w, w, ci + x0, ci - y0);
            lemma_row_in_buf(w, w, ci - x0, ci + y0);
        }
        set_pixel(cursor_pattern, center + x, center + y, width, color);
        set_pixel(cursor_pattern, center + x, center - y, width, color);
        set_pixel(cursor_pattern, center - x, center + y, width, color);
        set_pixel(cursor_pattern, center - x, center - y, width, color);
        set_pixel(cursor_pattern, center + y, center + x, width, color);
        set_pixel(cursor_pattern, center + y, center - x, width, color);
        set_pixel(cursor_pattern, center - y, center + x, width, color);
        set_pixel(cursor_pattern, center - y, center - x, width, color);
        proof {
            assert(-0x20000000 <= d <= 0x20000000) by (nonlinear_arith)
                requires
                    -2 * radius - 4 <= d,
                    d <= 1 - radius + y * y + 6 * y,
                    0 <= y,
                    y <= x + 2,
                    x <= radius,
                    0 <= radius <= 0x1fff,
            ;
        }
        y = y + 1;
        if d <= 0 {
            d = d + 2 * y + 1;
        } else {
            x = x - 1;
            d = d + 2 * (y - x) + 1;
        }
        proof {
            assert(d <= 1 - radius + y * y + 6 * y) by (nonlinear_arith)
                requires
                    y == y0 + 1,
                    d0 <= 1 - radius + y0 * y0 + 6 * y0,
                    y0 >= 0,
                    x0 >= y0,
                    (d0 <= 0 ==> d == d0 + 2 * y + 1 && x == x0)
                        && (d0 > 0 ==> d == d0 + 2 * (y - x) + 1 && x == x0 - 1),
            ;
            assert forall|qx: int, qy: int|
                #[trigger] outline_state_hit(ci, x as int, y as int, d as int, qx, qy)
                    implies outline_hit(ri, ci, qx, qy) by {
                assert(outline_state_hit(ci, x0, y0, d0, qx, qy) == (outline_arm_hit(
                    ci,
                    x0,
                    y0,
                    qx,
                    qy,
                ) || outline_state_hit(ci, x as int, y as int, d as int, qx, qy)));
            }
            assert forall|qx: int, qy: int, k: int|
                0 <= qx < w && 0 <= qy < w && 0 <= k < 4 && !outline_state_hit(
                    ci,
                    x as int,
                    y as int,
                    d as int,
                    qx,
                    qy,
                ) implies #[trigger] pix4(cursor_pattern@, w, qx, qy, k) == (if outline_hit(
                ri,
                ci,
                qx,
                qy,
            ) {
                argb_byte(color, k)
            } else {
                pix4(prev, w, qx, qy, k)
            }) by {
                assert(outline_state_hit(ci, x0, y0, d0, qx, qy) == (outline_arm_hit(
                    ci,
                    x0,
                    y0,
                    qx,
                    qy,
                ) || outline_state_hit(ci, x as int, y as int, d as int, qx, qy)));
                assert(pix4(mid, w, qx, qy, k) == mid[(qy * w + qx) * 4 + k]);
                lemma_row_in_buf(w, w, qy, qx);
                lemma_byte_range(w, qx, qy, k, ci + x0, ci + y0);
                lemma_byte_range(w, qx, qy, k, ci + x0, ci - y0);
                lemma_byte_range(w, qx, qy, k, ci - x0, ci + y0);
                lemma_byte_range(w, qx, qy, k, ci - x0, ci - y0);
                lemma_byte_range(w, qx, qy, k, ci + y0, ci + x0);
                lemma_byte_range(w, qx, qy, k, ci + y0, ci - x0);
                lemma_byte_range(w, qx, qy, k, ci - y0, ci + x0);
                lemma_byte_range(w, qx, qy, k, ci - y0, ci - x0);
            }
        }
    }
    proof {
        assert forall|qx: int, qy: int, k: int|
            0 <= qx < w && 0 <= qy < w && 0 <= k < 4 implies #[trigger] pix4(
            cursor_pattern@,
            w,
            qx,
            qy,
            k,
        ) == (if outline_hit(ri, ci, qx, qy) {
            argb_byte(color, k)
        } else {
            pix4(prev, w, qx, qy, k)
        }) by {
            assert(!outline_state_hit(ci, x as int, y as int, d as int, qx, qy));
        }
    }
}

/// The RGBA pattern of the eraser cursor: a white circle outline of the
/// brush radius with a black outline nested just inside it, on a fully
/// transparent square pattern.
pub fn erasing_cursor_pattern(radius: i32) -> (v: Vec<u8>)
    requires
        0 <= radius <= 0x1fff,
    ensures
        v@.len() == (2 * (radius as int) + 1) * (2 * (radius as int) + 1) * 4,
        forall|qx: int, qy: int, k: int|
            0 <= qx < 2 * (radius as int) + 1 && 0 <= qy < 2 * (radius as int) + 1 && 0 <= k < 4
                ==> #[trigger] pix4(v@, 2 * (radius as int) + 1, qx, qy, k) == (if outline_hit(
                radius as int - 1,
                radius as int,
                qx,
                qy,
            ) {
                argb_byte(0xff000000u32, k)
            } else if outline_hit(radius as int, radius as int, qx, qy) {
                argb_byte(0xffffffffu32, k)
            } else {
                0u8
            }),
{
    let ghost ri = radius as int;
    let ghost w = 2 * ri + 1;
    let diameter: i32 = radius * 2 + 1;
    proof {
        assert((diameter as int) * (diameter as int) * 4 == w * w * 4 && w * w * 4
            < 0x100000000) by (nonlinear_arith)
            requires
                diameter as int == 2 * (radius as int) + 1,
                w == 2 * (radius as int) + 1,
                0 <= radius <= 0x1fff,
        ;
    }
    let mut cursor_pattern: Vec<u8> = zeroed_pattern((diameter as usize) * (diameter as usize) * 4);
    let ghost zeros = cursor_pattern@;
    paint_outline_circle(&mut cursor_pattern, radius, 0xffffffffu32, radius);
    let ghost after_white = cursor_pattern@;
    paint_outline_circle(&mut cursor_pattern, radius - 1, 0xff000000u32, radius);
    proof {
        assert forall|qx: int, qy: int, k: int|
            0 <= qx < w && 0 <= qy < w && 0 <= k < 4 implies #[trigger] pix4(
            cursor_pattern@,
            w,
            qx,
            qy,
            k,
        ) == (if outline_hit(ri - 1, ri, qx, qy) {
            argb_byte(0xff000000u32, k)
        } else if outline_hit(ri, ri, qx, qy) {
            argb_byte(0xffffffffu32, k)
        } else {
            0u8
        }) by {
            assert(pix4(after_white, w, qx, qy, k) == after_white[(qy * w + qx) * 4 + k]);
            assert(pix4(zeros, w, qx, qy, k) == zeros[(qy * w + qx) * 4 + k]);
            lemma_row_in_buf(w, w, qy, qx);
        }
    }
    cursor_pattern
}

/// One midpoint iteration of the filled cursor disc: the two horizontal
/// runs at rows `c ± y` spanning columns `[c - x, c + x]`, and the two
/// at rows `c ± x` spanning columns `[c - y, c + y]`, all inclusive.
pub open spec fn cursor_arm_hit(c: int, x: int, y: int, qx: int, qy: int) -> bool {
    ||| ((qy == c + y || qy == c - y) && c - x <= qx <= c + x)
    ||| ((qy == c + x || qy == c - x) && c - y <= qx <= c + y)
}

/// Pixels of the filled cursor disc still to be written from midpoint
/// state `(x, y, d)`.
pub open spec fn cursor_disc_state_hit(c: int, x: int, y: int, d: int, qx: int, qy: int) -> bool
    decreases x - y + 2,
{
    if x < y {
        false
    } else {
        cursor_arm_hit(c, x, y, qx, qy) || (if d <= 0 {
            cursor_disc_state_hit(c, x, y + 1, d + 2 * (y + 1) + 1, qx, qy)
        } else {
            cursor_disc_state_hit(c, x - 1, y + 1, d + 2 * ((y + 1) - (x - 1)) + 1, qx, qy)
        })
    }
}

/// Pixels of the filled cursor disc of radius `r` around `(c, c)`.
pub open spec fn cursor_disc_hit(r: int, c: int, qx: int, qy: int) -> bool {
    cursor_disc_state_hit(c, r, 0, 1 - r, qx, qy)
}

/// Write the RGBA quadruples of the inclusive pixel run `[x1, x2]` of
/// row `y` of a square pattern.
fn fill_row_bytes(cursor_pattern: &mut Vec<u8>, width: i32, x1: i32, x2: i32, y: i32, color: u32)
    requires
        1 <= width,
        0 <= x1 <= x2 < width,
        0 <= y < width,
        old(cursor_pattern)@.len() == (width as int) * (width as int) * 4,
        old(cursor_pattern)@.len() <= 0x7fffffff,
    ensures
        final(cursor_pattern)@.len() == old(cursor_pattern)@.len(),
        forall|qx: int, qy: int, k: int|
            0 <= qx < width && 0 <= qy < width && 0 <= k < 4 ==> #[trigger] pix4(
                final(cursor_pattern)@,
                width as int,
                qx,
                qy,
                k,
            ) == (if qy == y && x1 <= qx <= x2 {
                argb_byte(color, k)
            } else {
                pix4(old(cursor_pattern)@, width as int, qx, qy, k)
            }),
{
    let ghost prev = cursor_pattern@;
    let ghost w = width as int;
    let ghost yi = y as int;
    let mut i: i32 = x1;
    while i <= x2
        invariant
            1 <= width,
            w == width as int,
            yi == y as int,
            0 <= x1 <= x2 < width,
            0 <= y < width,
            x1 <= i <= x2 + 1,
            cursor_pattern@.len() == prev.len(),
            prev.len() == w * w * 4,
            prev.len() <= 0x7fffffff,
            forall|qx: int, qy: int, k: int|
                0 <= qx < w && 0 <= qy < w && 0 <= k < 4 ==> #[trigger] pix4(
                    cursor_pattern@,
                    w,
                    qx,
                    qy,
                    k,
                ) == (if qy == yi && x1 <= qx < i {
                    argb_byte(color, k)
                } else {
                    pix4(prev, w, qx, qy, k)
                }),
        decreases x2 + 1 - i,
    {
        let ghost mid = cursor_pattern@;
        let ghost ii = i as int;
        proof {
            lemma_row_in_buf(w, w, yi, ii);
        }
        set_pixel(cursor_pattern, i, y, width, color);
        proof {
            assert forall|qx: int, qy: int, k: int|
                0 <= qx < w && 0 <= qy < w && 0 <= k < 4 implies #[trigger] pix4(
                cursor_pattern@,
                w,
                qx,
                qy,
                k,
            ) == (if qy == yi && x1 <= qx < ii + 1 {
                argb_byte(color, k)
            } else {
                pix4(prev, w, qx, qy, k)
            }) by {
                assert(pix4(mid, w, qx, qy, k) == mid[(qy * w + qx) * 4 + k]);
                lemma_row_in_buf(w, w, qy, qx);
                lemma_byte_range(w, qx, qy, k, ii, yi);
            }
        }
        i = i + 1;
    }
}

/// The RGBA pattern of the brush cursor: a filled disc of the brush
/// radius in the current color, on a fully transparent square pattern.
pub fn color_circle_cursor_pattern(radius: i32, current_color: u32) -> (v: Vec<u8>)
    requires
        0 <= radius <= 0x1fff,
    ensures
        v@.len() == (2 * (radius as int) + 1) * (2 * (radius as int) + 1) * 4,
        forall|qx: int, qy: int, k: int|
            0 <= qx < 2 * (radius as int) + 1 && 0 <= qy < 2 * (radius as int) + 1 && 0 <= k < 4
                ==> #[trigger] pix4(v@, 2 * (radius as int) + 1, qx, qy, k) == (
            if cursor_disc_hit(radius as int, radius as int, qx, qy) {
                argb_byte(current_color, k)
            } else {
                0u8
            }),
{
    let ghost ri = radius as int;
    let ghost ci = radius as int;
    let ghost w = 2 * ri + 1;
    let diameter: i32 = radius * 2 + 1;
    proof {
        assert((diameter as int) * (diameter as int) * 4 == w * w * 4 && w * w * 4
            < 0x7fffffff) by (nonlinear_arith)
            requires
                diameter as int == 2 * (radius as int) + 1,
                w == 2 * (radius as int) + 1,
                0 <= radius <= 0x1fff,
        ;
    }
    let mut cursor_pattern: Vec<u8> = zeroed_pattern((diameter as usize) * (diameter as usize) * 4);
    let ghost zeros = cursor_pattern@;
    let center: i32 = radius;
    let mut x: i32 = radius;
    let mut y: i32 = 0;
    let mut d: i32 = 1 - radius;
    proof {
        assert forall|qx: int, qy: int, k: int|
            0 <= qx < w && 0 <= qy < w && 0 <= k < 4 implies #[trigger] pix4(
            cursor_pattern@,
            w,
            qx,
            qy,
            k,
        ) == 0u8 by {
            lemma_row_in_buf(w, w, qy, qx);
        }
    }
    while x >= y
        invariant
            ci == radius as int,
            ri == radius as int,
            w == 2 * ci + 1,
            diameter == 2 * radius + 1,
            center == radius,
            0 <= radius <= 0x1fff,
            cursor_pattern@.len() == w * w * 4,
            cursor_pattern@.len() <= 0x7fffffff,
            -1 <= x <= radius,
            0 <= y <= x + 2,
            -2 * radius - 4 <= d,
            d <= 1 - radius + y * y + 6 * y,
            forall|qx: int, qy: int|
                #[trigger] cursor_disc_state_hit(ci, x as int, y as int, d as int, qx, qy)
                    ==> cursor_disc_hit(ri, ci, qx, qy),
            forall|qx: int, qy: int, k: int|
                0 <= qx < w && 0 <= qy < w && 0 <= k < 4 && !cursor_disc_state_hit(
                    ci,
                    x as int,
                    y as int,
                    d as int,
                    qx,
                    qy,
                ) ==> #[trigger] pix4(cursor_pattern@, w, qx, qy, k) == (if cursor_disc_hit(
                    ri,
                    ci,
                    qx,
                    qy,
                ) {
                    argb_byte(current_color, k)
                } else {
                    0u8
                }),
        decreases x - y + 2,
    {
        let ghost x0 = x as int;
        let ghost y0 = y as int;
        let ghost d0 = d as int;
        let ghost mid = cursor_pattern@;
        fill_row_bytes(&mut cursor_pattern, diameter, center - x, center + x, center + y, current_color);
        fill_row_bytes(&mut cursor_pattern, diameter, center - x, center + x, center - y, current_color);
        fill_row_bytes(&mut cursor_pattern, diameter, center - y, center + y, center + x, current_color);
        fill_row_bytes(&mut cursor_pattern, diameter, center - y, center + y, center - x, current_color);
        proof {
            assert(-0x20000000 <= d <= 0x20000000) by (nonlinear_arith)
                requires
                    -2 * radius - 4 <= d,
                    d <= 1 - radius + y * y + 6 * y,
                    0 <= y,
                    y <= x + 2,
                    x <= radius,
                    0 <= radius <= 0x1fff,
            ;
        }
        y = y + 1;
        if d <= 0 {
            d = d + 2 * y + 1;
        } else {
            x = x - 1;
            d = d + 2 * (y - x) + 1;
        }
        proof {
            assert(d <= 1 - radius + y * y + 6 * y) by (nonlinear_arith)
                requires
                    y == y0 + 1,
                    d0 <= 1 - radius + y0 * y0 + 6 * y0,
                    y0 >= 0,
                    x0 >= y0,
                    (d0 <= 0 ==> d == d0 + 2 * y + 1 && x == x0)
                        && (d0 > 0 ==> d == d0 + 2 * (y - x) + 1 && x == x0 - 1),
            ;
            assert forall|qx: int, qy: int|
                #[trigger] cursor_disc_state_hit(ci, x as int, y as int, d as int, qx, qy)
                    implies cursor_disc_hit(ri, ci, qx, qy) by {
                assert(cursor_disc_state_hit(ci, x0, y0, d0, qx, qy) == (cursor_arm_hit(
                    ci,
                    x0,
                    y0,
                    qx,
                    qy,
                ) || cursor_disc_state_hit(ci, x as int, y as int, d as int, qx, qy)));
            }
            assert forall|qx: int, qy: int, k: int|
                0 <= qx < w && 0 <= qy < w && 0 <= k < 4 && !cursor_disc_state_hit(
                    ci,
                    x as int,
                    y as int,
                    d as int,
                    qx,
                    qy,
                ) implies #[trigger] pix4(cursor_pattern@, w, qx, qy, k) == (if cursor_disc_hit(
                ri,
                ci,
                qx,
                qy,
            ) {
                argb_byte(current_color, k)
            } else {
                0u8
            }) by {
                assert(cursor_disc_state_hit(ci, x0, y0, d0, qx, qy) == (cursor_arm_hit(
                    ci,
                    x0,
                    y0,
                    qx,
                    qy,
                ) || cursor_disc_state_hit(ci, x as int, y as int, d as int, qx, qy)));
                assert(pix4(mid, w, qx, qy, k) == mid[(qy * w + qx) * 4 + k]);
            }
        }
    }
    proof {
        assert forall|qx: int, qy: int, k: int|
            0 <= qx < w && 0 <= qy < w && 0 <= k < 4 implies #[trigger] pix4(
            cursor_pattern@,
            w,
            qx,
            qy,
            k,
        ) == (if cursor_disc_hit(ri, ci, qx, qy) {
            argb_byte(current_color, k)
        } else {
            0u8
        }) by {
            assert(!cursor_disc_state_hit(ci, x as int, y as int, d as int, qx, qy));
        }
    }
    cursor_pattern
}

} // verus!
