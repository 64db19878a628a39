use vstd::prelude::*;
use vstd::arithmetic::div_mod::{
    lemma_div_pos_is_pos, lemma_fundamental_div_mod, lemma_fundamental_div_mod_converse,
    lemma_mod_pos_bound,
};

verus! {

/// The value of `n` reinterpreted as an `i32` (two's complement), as the
/// drawing code does when it clips against the image size.
pub open spec fn i32_clip(n: u32) -> int {
    if n <= 0x7fff_ffff { n as int } else { n as int - 0x1_0000_0000 }
}

/// Pixel `i` of a row-major buffer `w` pixels wide lies inside the rectangle
/// `[x0, x1) × [y0, y1)` clipped to the `w × h` image.
pub open spec fn in_rect(i: int, w: u32, h: u32, x0: int, y0: int, x1: int, y1: int) -> bool {
    &&& w > 0
    &&& 0 <= i
    &&& x0 <= i % (w as int) < x1
    &&& i % (w as int) < i32_clip(w)
    &&& y0 <= i / (w as int) < y1
    &&& i / (w as int) < i32_clip(h)
}

/// Every pixel index that filling the clipped rectangle touches lies inside a
/// buffer of `len` pixels and fits the `u32` index arithmetic.
pub open spec fn rect_fits(len: int, w: u32, h: u32, x0: int, y0: int, x1: int, y1: int) -> bool {
    let cx0 = if x0 < 0 { 0 } else { x0 };
    let cy0 = if y0 < 0 { 0 } else { y0 };
    let cx1 = if x1 < i32_clip(w) { x1 } else { i32_clip(w) };
    let cy1 = if y1 < i32_clip(h) { y1 } else { i32_clip(h) };
    (cx0 < cx1 && cy0 < cy1) ==> {
        &&& (cy1 - 1) * (w as int) + (cx1 - 1) < len
        &&& (cy1 - 1) * (w as int) + (cx1 - 1) <= u32::MAX
    }
}

/// The column and row of pixel `i` in a row-major buffer `w` pixels wide.
pub proof fn lemma_pixel_coords(i: int, w: int)
    requires
        0 <= i,
        0 < w,
    ensures
        0 <= i % w < w,
        0 <= i / w,
        i == w * (i / w) + i % w,
{
    lemma_mod_pos_bound(i, w);
    lemma_div_pos_is_pos(i, w);
    lemma_fundamental_div_mod(i, w);
}

/// A buffer of at least `w × h` pixels, with `w × h` addressable by `u32`,
/// takes any clipped rectangle.
pub proof fn lemma_image_fits_rect(len: int, w: u32, h: u32, x0: int, y0: int, x1: int, y1: int)
    requires
        (w as int) * (h as int) <= len,
        (w as int) * (h as int) <= u32::MAX as int + 1,
    ensures
        rect_fits(len, w, h, x0, y0, x1, y1),
{
    let cx0 = if x0 < 0 { 0 } else { x0 };
    let cy0 = if y0 < 0 { 0 } else { y0 };
    let cx1 = if x1 < i32_clip(w) { x1 } else { i32_clip(w) };
    let cy1 = if y1 < i32_clip(h) { y1 } else { i32_clip(h) };
    if cx0 < cx1 && cy0 < cy1 {
        assert(cx1 <= w && cy1 <= h);
        let a = cy1 - 1;
        assert(0 <= a < h);
        assert(a * (w as int) <= ((h as int) - 1) * (w as int)) by (nonlinear_arith)
            requires 0 <= a <= (h as int) - 1, w >= 0;
        assert(((h as int) - 1) * (w as int) == (h as int) * (w as int) - (w as int)) by (nonlinear_arith);
        assert((w as int) * (h as int) == (h as int) * (w as int)) by (nonlinear_arith);
    }
}

/// Fill the rectangle `[x0, x1) × [y0, y1)`, clipped to the `w × h` image, with
/// `color`; every other pixel keeps its value.
pub fn fill_rect(buf: &mut [u32], w: u32, h: u32, x0: i32, y0: i32, x1: i32, y1: i32, color: u32)
    requires
        rect_fits(old(buf)@.len() as int, w, h, x0 as int, y0 as int, x1 as int, y1 as int),
    ensures
        final(buf)@.len() == old(buf)@.len(),
        forall|i: int|
            0 <= i < old(buf)@.len() ==> #[trigger] final(buf)@[i] == if in_rect(
                i,
                w,
                h,
                x0 as int,
                y0 as int,
                x1 as int,
                y1 as int,
            ) {
                color
            } else {
                old(buf)@[i]
            },
{
    let ghost orig = buf@;
    let ghost (ox0, oy0, ox1, oy1) = (x0 as int, y0 as int, x1 as int, y1 as int);
    let wl: i32 = w as i32;
    let hl: i32 = h as i32;
    assert(wl as int == i32_clip(w)) by (bit_vector)
        requires wl == w as i32;
    assert(hl as int == i32_clip(h)) by (bit_vector)
        requires hl == h as i32;
    let x0 = if x0 < 0 { 0 } else { x0 };
    let y0 = if y0 < 0 { 0 } else { y0 };
    let x1 = if x1 < wl { x1 } else { wl };
    let y1 = if y1 < hl { y1 } else { hl };
    let mut y = y0;
    while y < y1
        invariant
            0 <= x0,
            0 <= y0,
            x1 <= i32_clip(w),
            y1 <= i32_clip(h),
            y0 <= y,
            y <= y1 || y == y0,
            x0 < x1 && y0 < y1 ==> {
                &&& (y1 - 1) * (w as int) + (x1 - 1) < orig.len()
                &&& (y1 - 1) * (w as int) + (x1 - 1) <= u32::MAX
            },
            buf@.len() == orig.len(),
            forall|i: int|
                0 <= i < orig.len() ==> #[trigger] buf@[i] == if in_rect(
                    i,
                    w,
                    h,
                    x0 as int,
                    y0 as int,
                    x1 as int,
                    y as int,
                ) {
                    color
                } else {
                    orig[i]
                },
        decreases y1 - y,
    {
        if x0 < x1 {
            assert(w > 0);
            assert(0 <= y < h);
            assert((y as int) * (w as int) <= ((y1 as int) - 1) * (w as int)) by (nonlinear_arith)
                requires 0 <= y <= y1 - 1, w >= 0;
        }
        let row: u32 = if x0 < x1 { y as u32 * w } else { 0 };
        let mut x = x0;
        while x < x1
            invariant
                0 <= x0 <= x,
                x <= x1 || x == x0,
                x1 <= i32_clip(w),
                0 <= y0 <= y < y1 <= i32_clip(h),
                x0 < x1 ==> row as int == (y as int) * (w as int),
                x0 < x1 ==> (y1 - 1) * (w as int) + (x1 - 1) < orig.len(),
                x0 < x1 ==> (y1 - 1) * (w as int) + (x1 - 1) <= u32::MAX,
                x0 < x1 ==> (y as int) * (w as int) <= ((y1 as int) - 1) * (w as int),
                buf@.len() == orig.len(),
                forall|i: int|
                    0 <= i < orig.len() ==> #[trigger] buf@[i] == if in_rect(
                        i,
                        w,
                        h,
                        x0 as int,
                        y0 as int,
                        x1 as int,
                        y as int,
                    ) || (w > 0 && 0 <= i && i / (w as int) == y && x0 <= i % (w as int) < x) {
                        color
                    } else {
                        orig[i]
                    },
            decreases x1 - x,
        {
            let k: u32 = row + x as u32;
            let ghost pre = buf@;
            proof {
                lemma_fundamental_div_mod_converse(k as int, w as int, y as int, x as int);
                assert((w as int) * (y as int) == (y as int) * (w as int)) by (nonlinear_arith);
            }
            buf[k as usize] = color;
            assert forall|i: int| 0 <= i < orig.len() implies #[trigger] buf@[i] == if in_rect(
                i,
                w,
                h,
                x0 as int,
                y0 as int,
                x1 as int,
                y as int,
            ) || (w > 0 && 0 <= i && i / (w as int) == y && x0 <= i % (w as int) < x + 1) {
                color
            } else {
                orig[i]
            } by {
                if i != k {
                    lemma_fundamental_div_mod(i, w as int);
                    assert(pre[i] == buf@[i]);
                }
            }
            x = x + 1;
        }
        y = y + 1;
        assert forall|i: int| 0 <= i < orig.len() implies #[trigger] buf@[i] == if in_rect(
            i,
            w,
            h,
            x0 as int,
            y0 as int,
            x1 as int,
            y as int,
        ) {
            color
        } else {
            orig[i]
        } by {
            if w > 0 && i >= 0 {
                lemma_pixel_coords(i, w as int);
            }
        }
    }
    assert forall|i: int| 0 <= i < orig.len() implies in_rect(
        i,
        w,
        h,
        x0 as int,
        y0 as int,
        x1 as int,
        y as int,
    ) == in_rect(i, w, h, ox0, oy0, ox1, oy1) by {
        if w > 0 && i >= 0 {
            lemma_pixel_coords(i, w as int);
        }
    }
}

/// The Windows COLORREF (0x00BBGGRR) for a color written 0x00RRGGBB: red and
/// blue swap places, green stays.
pub open spec fn spec_colorref(rgb: u32) -> u32 {
    ((rgb & 0xFF) << 16u32) | (rgb & 0x00FF00) | ((rgb >> 16u32) & 0xFF)
}

/// Convert a 0x00RRGGBB color to the 0x00BBGGRR layout GDI brushes take.
pub fn colorref(rgb: u32) -> (c: u32)
    ensures
        c == spec_colorref(rgb),
        c & 0xFF == (rgb >> 16u32) & 0xFF,
        (c >> 8u32) & 0xFF == (rgb >> 8u32) & 0xFF,
        (c >> 16u32) & 0xFF == rgb & 0xFF,
        c <= 0x00FF_FFFF,
{
    let c = ((rgb & 0xFF) << 16) | (rgb & 0x00FF00) | ((rgb >> 16) & 0xFF);
    assert(c & 0xFF == (rgb >> 16u32) & 0xFF && (c >> 8u32) & 0xFF == (rgb >> 8u32) & 0xFF && (c
        >> 16u32) & 0xFF == rgb & 0xFF && c <= 0x00FF_FFFF) by (bit_vector)
        requires c == ((rgb & 0xFF) << 16u32) | (rgb & 0x00FF00) | ((rgb >> 16u32) & 0xFF);
    c
}

/// Swapping red and blue twice gives back the color (its low 24 bits).
pub proof fn lemma_colorref_involution(rgb: u32)
    ensures
        spec_colorref(spec_colorref(rgb)) == rgb & 0x00FF_FFFF,
{
    assert(spec_colorref(spec_colorref(rgb)) == rgb & 0x00FF_FFFF) by (bit_vector);
}

/// The first envelope bucket that pixel column `px` of `cols` covers, for an
/// envelope of `n` buckets.
pub open spec fn column_start(n: int, px: int, cols: int) -> int {
    px * n / cols
}

/// The bucket range `[start, end)` that pixel column `px` of `cols` covers:
/// from `px·n/cols` up to `(px+1)·n/cols`, at least one bucket, clipped to
/// the `n` buckets.
pub open spec fn column_end(n: int, px: int, cols: int) -> int {
    let e = (px + 1) * n / cols;
    let e = if e < column_start(n, px, cols) + 1 { column_start(n, px, cols) + 1 } else { e };
    if e < n { e } else { n }
}

/// The envelope buckets covering pixel column `px` of a `cols`-wide lane, for
/// an envelope of `n` buckets: several buckets per column when the lane is
/// narrow, several columns per bucket when it is wide.
pub fn column_range(n: usize, px: u32, cols: u32) -> (range: (usize, usize))
    requires
        n > 0,
        px < cols,
        (px as int + 1) * (n as int) <= u64::MAX,
    ensures
        range.0 == column_start(n as int, px as int, cols as int),
        range.1 == column_end(n as int, px as int, cols as int),
        range.0 < range.1 <= n,
{
    proof {
        assert(0 <= (px as int) * (n as int) <= (px as int + 1) * (n as int)) by (nonlinear_arith)
            requires px >= 0, n > 0;
        assert((px as int) * (n as int) / (cols as int) < n) by (nonlinear_arith)
            requires 0 <= px < cols, n > 0;
        assert((px as int) * (n as int) / (cols as int) >= 0) by (nonlinear_arith)
            requires 0 <= px, n > 0, cols > 0;
        assert((px as int + 1) * (n as int) / (cols as int) <= n) by (nonlinear_arith)
            requires 0 <= px < cols, n > 0;
    }
    let b0 = (px as u64 * n as u64 / cols as u64) as usize;
    let b1 = ((px as u64 + 1) * n as u64 / cols as u64) as usize;
    let b1 = if b1 < b0 + 1 { b0 + 1 } else { b1 };
    let end = if b1 < n { b1 } else { n };
    (b0, end)
}

/// The columns of a lane tile its envelope: the first column starts at the
/// first bucket, each column starts no later than where the previous one
/// ends, starts never go backwards, and the last column ends at the last
/// bucket. Every bucket is drawn.
pub proof fn lemma_columns_tile(n: int, cols: int, px: int)
    requires
        n > 0,
        cols > 0,
        0 <= px < cols,
    ensures
        column_start(n, 0, cols) == 0,
        px + 1 < cols ==> column_start(n, px, cols) <= column_start(n, px + 1, cols),
        px + 1 < cols ==> column_start(n, px + 1, cols) <= column_end(n, px, cols),
        column_end(n, cols - 1, cols) == n,
{
    assert(0 * n / cols == 0) by (nonlinear_arith)
        requires cols > 0;
    assert(px * n / cols <= (px + 1) * n / cols) by (nonlinear_arith)
        requires 0 <= px, n > 0, cols > 0;
    assert((px + 1) * n / cols <= n) by (nonlinear_arith)
        requires 0 <= px < cols, n > 0;
    assert((cols - 1 + 1) * n / cols == n) by (nonlinear_arith)
        requires cols > 0, n > 0;
    assert((cols - 1) * n / cols < n) by (nonlinear_arith)
        requires cols > 0, n > 0;
}

} // verus!
