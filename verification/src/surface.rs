//! Whole-buffer operations: composing the presentable surface from the
//! persisted drawing buffer, clearing, applying opacity, and resizing
//! with preservation of the overlapping top-left rectangle.

use vstd::prelude::*;

use crate::raster::lemma_pix_index_unique;
use crate::raster::lemma_row_in_buf;
use crate::raster::pix;

verus! {

/// A color with its alpha channel replaced by `opacity`.
pub open spec fn with_alpha(c: u32, opacity: u8) -> u32 {
    (c & 0x00ffffff) | ((opacity as u32) << 24)
}

/// The presentable value of one persisted cell: the background where the
/// cell holds the empty sentinel, the persisted color elsewhere.
pub open spec fn present_val(c: u32, bg: u32) -> u32 {
    if c == 0 {
        bg
    } else {
        c
    }
}

/// The fully recomposed presentable buffer for a drawing buffer and
/// background, with no preview applied.
pub open spec fn rerendered(drawing: Seq<u32>, bg: u32) -> Seq<u32> {
    Seq::new(drawing.len(), |i: int| present_val(drawing[i], bg))
}

/// The presentable buffer recomposed with `opacity` forced into every
/// alpha channel; a fully transparent background stays fully transparent.
pub open spec fn opacified(drawing: Seq<u32>, bg: u32, opacity: u8) -> Seq<u32> {
    Seq::new(
        drawing.len(),
        |i: int|
            if drawing[i] == 0 {
                if bg == 0 {
                    0u32
                } else {
                    with_alpha(bg, opacity)
                }
            } else {
                with_alpha(drawing[i], opacity)
            },
    )
}

/// A buffer of `n` cells, all holding `color`.
pub fn make_filled(n: usize, color: u32) -> (v: Vec<u32>)
    ensures
        v@ == Seq::new(n as nat, |i: int| color),
{
    let mut v: Vec<u32> = Vec::new();
    let mut i: usize = 0;
    while i < n
        invariant
            0 <= i <= n,
            v@ == Seq::new(i as nat, |t: int| color),
        decreases n - i,
    {
        v.push(color);
        proof {
            assert(v@ =~= Seq::new((i + 1) as nat, |t: int| color));
        }
        i = i + 1;
    }
    v
}

/// Overwrite every cell of a buffer with `color`.
pub fn fill_all(buf: &mut Vec<u32>, color: u32)
    ensures
        final(buf)@ == Seq::new(old(buf)@.len(), |i: int| color),
{
    let n: usize = buf.len();
    let mut i: usize = 0;
    while i < n
        invariant
            0 <= i <= n,
            buf@.len() == n,
            forall|t: int| 0 <= t < i ==> buf@[t] == color,
            forall|t: int| i <= t < n ==> buf@[t] == old(buf)@[t],
        decreases n - i,
    {
        buf.set(i, color);
        i = i + 1;
    }
    proof {
        assert(buf@ =~= Seq::new(old(buf)@.len(), |i: int| color));
    }
}

/// Recompute every presentable cell from the drawing buffer and the
/// background color.
pub fn rerender_all(screen: &mut Vec<u32>, drawing: &Vec<u32>, bg: u32)
    requires
        old(screen)@.len() == drawing@.len(),
    ensures
        final(screen)@ == rerendered(drawing@, bg),
{
    let n: usize = screen.len();
    let mut i: usize = 0;
    while i < n
        invariant
            0 <= i <= n,
            screen@.len() == n,
            drawing@.len() == n,
            forall|t: int| 0 <= t < i ==> screen@[t] == present_val(drawing@[t], bg),
            forall|t: int| i <= t < n ==> screen@[t] == old(screen)@[t],
        decreases n - i,
    {
        let v: u32 = if drawing[i] == 0 {
            bg
        } else {
            drawing[i]
        };
        screen.set(i, v);
        i = i + 1;
    }
    proof {
        assert(screen@ =~= rerendered(drawing@, bg));
    }
}

/// Recompute every presentable cell with the given opacity forced into
/// its alpha channel.
pub fn opacify_all(screen: &mut Vec<u32>, drawing: &Vec<u32>, bg: u32, opacity: u8)
    requires
        old(screen)@.len() == drawing@.len(),
    ensures
        final(screen)@ == opacified(drawing@, bg, opacity),
{
    let bg_color: u32 = if bg == 0 {
        0
    } else {
        (bg & 0x00ffffff) | ((opacity as u32) << 24)
    };
    let n: usize = screen.len();
    let mut i: usize = 0;
    while i < n
        invariant
            0 <= i <= n,
            screen@.len() == n,
            drawing@.len() == n,
            bg_color == (if bg == 0 {
                0u32
            } else {
                with_alpha(bg, opacity)
            }),
            forall|t: int|
                0 <= t < i ==> screen@[t] == (if drawing@[t] == 0 {
                    bg_color
                } else {
                    with_alpha(drawing@[t], opacity)
                }),
            forall|t: int| i <= t < n ==> screen@[t] == old(screen)@[t],
        decreases n - i,
    {
        let v: u32 = if drawing[i] == 0 {
            bg_color
        } else {
            (drawing[i] & 0x00ffffff) | ((opacity as u32) << 24)
        };
        screen.set(i, v);
        i = i + 1;
    }
    proof {
        assert(screen@ =~= opacified(drawing@, bg, opacity));
    }
}

/// A freshly sized buffer that preserves the overlapping top-left
/// rectangle of the old one and fills every other cell with the empty
/// sentinel.
pub fn resize_buffer(old_buf: &Vec<u32>, old_w: i32, old_h: i32, new_w: i32, new_h: i32) -> (v: Vec<
    u32,
>)
    requires
        1 <= old_w,
        1 <= old_h,
        (old_w as int) * (old_h as int) == old_buf@.len(),
        (old_w as int) * (old_h as int) <= i32::MAX,
        1 <= new_w,
        1 <= new_h,
        (new_w as int) * (new_h as int) <= i32::MAX,
    ensures
        v@.len() == (new_w as int) * (new_h as int),
        forall|px: int, py: int|
            0 <= px < new_w && 0 <= py < new_h ==> #[trigger] pix(v@, new_w as int, px, py) == (
            if px < old_w && py < old_h {
                pix(old_buf@, old_w as int, px, py)
            } else {
                0u32
            }),
{
    let ghost owi = old_w as int;
    let ghost ohi = old_h as int;
    let ghost nwi = new_w as int;
    let ghost nhi = new_h as int;
    proof {
        assert((new_w as usize) * (new_h as usize) == nwi * nhi) by (nonlinear_arith)
            requires
                1 <= new_w,
                1 <= new_h,
                nwi == new_w as int,
                nhi == new_h as int,
        ;
    }
    let mut v: Vec<u32> = make_filled((new_w as usize) * (new_h as usize), 0);
    let min_w: i32 = if new_w < old_w {
        new_w
    } else {
        old_w
    };
    let min_h: i32 = if new_h < old_h {
        new_h
    } else {
        old_h
    };
    proof {
        assert forall|px: int, py: int| 0 <= px < nwi && 0 <= py < nhi implies #[trigger] pix(
            v@,
            nwi,
            px,
            py,
        ) == 0u32 by {
            lemma_row_in_buf(nwi, nhi, py, px);
        }
    }
    let mut y: i32 = 0;
    while y < min_h
        invariant
            owi == old_w as int,
            ohi == old_h as int,
            nwi == new_w as int,
            nhi == new_h as int,
            1 <= old_w,
            1 <= old_h,
            1 <= new_w,
            1 <= new_h,
            owi * ohi == old_buf@.len(),
            owi * ohi <= i32::MAX,
            nwi * nhi <= i32::MAX,
            min_w == (if new_w < old_w {
                new_w
            } else {
                old_w
            }),
            min_h == (if new_h < old_h {
                new_h
            } else {
                old_h
            }),
            0 <= y <= min_h,
            v@.len() == nwi * nhi,
            forall|px: int, py: int|
                0 <= px < nwi && 0 <= py < nhi ==> #[trigger] pix(v@, nwi, px, py) == (if px
                    < min_w && py < y {
                    pix(old_buf@, owi, px, py)
                } else {
                    0u32
                }),
        decreases min_h - y,
    {
        let mut x: i32 = 0;
        let ghost yi = y as int;
        while x < min_w
            invariant
                owi == old_w as int,
                ohi == old_h as int,
                nwi == new_w as int,
                nhi == new_h as int,
                1 <= old_w,
                1 <= old_h,
                1 <= new_w,
                1 <= new_h,
                owi * ohi == old_buf@.len(),
                owi * ohi <= i32::MAX,
                nwi * nhi <= i32::MAX,
                min_w == (if new_w < old_w {
                    new_w
                } else {
                    old_w
                }),
                min_h == (if new_h < old_h {
                    new_h
                } else {
                    old_h
                }),
                yi == y as int,
                0 <= yi < min_h,
                0 <= x <= min_w,
                v@.len() == nwi * nhi,
                forall|px: int, py: int|
                    0 <= px < nwi && 0 <= py < nhi ==> #[trigger] pix(v@, nwi, px, py) == (if (px
                        < min_w && py < yi) || (py == yi && px < x) {
                        pix(old_buf@, owi, px, py)
                    } else {
                        0u32
                    }),
            decreases min_w - x,
        {
            proof {
                lemma_row_in_buf(owi, ohi, yi, x as int);
                lemma_row_in_buf(nwi, nhi, yi, x as int);
            }
            let src: usize = ((y as i64) * (old_w as i64) + (x as i64)) as usize;
            let dst: usize = ((y as i64) * (new_w as i64) + (x as i64)) as usize;
            let ghost before = v@;
            let cell: u32 = old_buf[src];
            v.set(dst, cell);
            proof {
                assert forall|px: int, py: int| 0 <= px < nwi && 0 <= py < nhi implies #[trigger] pix(
                    v@,
                    nwi,
                    px,
                    py,
                ) == (if (px < min_w && py < yi) || (py == yi && px < x + 1) {
                    pix(old_buf@, owi, px, py)
                } else {
                    0u32
                }) by {
                    lemma_row_in_buf(nwi, nhi, py, px);
                    assert(pix(before, nwi, px, py) == before[py * nwi + px]);
                    if py * nwi + px == yi * nwi + x {
                        lemma_pix_index_unique(nwi, px, py, x as int, yi);
                    }
                }
            }
            x = x + 1;
        }
        y = y + 1;
    }
    v
}

} // verus!
