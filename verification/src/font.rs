use vstd::prelude::*;
use vstd::string::StrSliceExecFns;
use vstd::arithmetic::div_mod::{
    lemma_div_pos_is_pos, lemma_fundamental_div_mod, lemma_fundamental_div_mod_converse,
    lemma_mod_pos_bound,
};
use crate::ascii::{spec_upper, to_upper, upper_seq};
use crate::raster::{fill_rect, in_rect, i32_clip, rect_fits, lemma_pixel_coords};

verus! {

/// Width of a glyph cell in font pixels.
pub const GLYPH_W: i32 = 5;

/// Height of a glyph cell in font pixels.
pub const GLYPH_H: i32 = 7;

/// The 5×7 bitmap of `c`: seven rows, top first, each row five bits with the
/// most significant of them the leftmost column. Characters without a glyph
/// (space among them) are blank.
pub open spec fn glyph_rows(c: char) -> Seq<u8> {
    match c {
        '0' => seq![0b01110u8, 0b10001, 0b10011, 0b10101, 0b11001, 0b10001, 0b01110],
        '1' => seq![0b00100u8, 0b01100, 0b00100, 0b00100, 0b00100, 0b00100, 0b01110],
        '2' => seq![0b01110u8, 0b10001, 0b00001, 0b00010, 0b00100, 0b01000, 0b11111],
        '3' => seq![0b11111u8, 0b00010, 0b00100, 0b00010, 0b00001, 0b10001, 0b01110],
        '4' => seq![0b00010u8, 0b00110, 0b01010, 0b10010, 0b11111, 0b00010, 0b00010],
        '5' => seq![0b11111u8, 0b10000, 0b11110, 0b00001, 0b00001, 0b10001, 0b01110],
        '6' => seq![0b00110u8, 0b01000, 0b10000, 0b11110, 0b10001, 0b10001, 0b01110],
        '7' => seq![0b11111u8, 0b00001, 0b00010, 0b00100, 0b01000, 0b01000, 0b01000],
        '8' => seq![0b01110u8, 0b10001, 0b10001, 0b01110, 0b10001, 0b10001, 0b01110],
        '9' => seq![0b01110u8, 0b10001, 0b10001, 0b01111, 0b00001, 0b00010, 0b01100],
        'A' => seq![0b01110u8, 0b10001, 0b10001, 0b11111, 0b10001, 0b10001, 0b10001],
        'B' => seq![0b11110u8, 0b10001, 0b10001, 0b11110, 0b10001, 0b10001, 0b11110],
        'C' => seq![0b01110u8, 0b10001, 0b10000, 0b10000, 0b10000, 0b10001, 0b01110],
        'D' => seq![0b11100u8, 0b10010, 0b10001, 0b10001, 0b10001, 0b10010, 0b11100],
        'E' => seq![0b11111u8, 0b10000, 0b10000, 0b11110, 0b10000, 0b10000, 0b11111],
        'F' => seq![0b11111u8, 0b10000, 0b10000, 0b11110, 0b10000, 0b10000, 0b10000],
        'G' => seq![0b01110u8, 0b10001, 0b10000, 0b10111, 0b10001, 0b10001, 0b01111],
        'H' => seq![0b10001u8, 0b10001, 0b10001, 0b11111, 0b10001, 0b10001, 0b10001],
        'I' => seq![0b01110u8, 0b00100, 0b00100, 0b00100, 0b00100, 0b00100, 0b01110],
        'J' => seq![0b00111u8, 0b00010, 0b00010, 0b00010, 0b00010, 0b10010, 0b01100],
        'K' => seq![0b10001u8, 0b10010, 0b10100, 0b11000, 0b10100, 0b10010, 0b10001],
        'L' => seq![0b10000u8, 0b10000, 0b10000, 0b10000, 0b10000, 0b10000, 0b11111],
        'M' => seq![0b10001u8, 0b11011, 0b10101, 0b10101, 0b10001, 0b10001, 0b10001],
        'N' => seq![0b10001u8, 0b10001, 0b11001, 0b10101, 0b10011, 0b10001, 0b10001],
        'O' => seq![0b01110u8, 0b10001, 0b10001, 0b10001, 0b10001, 0b10001, 0b01110],
        'P' => seq![0b11110u8, 0b10001, 0b10001, 0b11110, 0b10000, 0b10000, 0b10000],
        'Q' => seq![0b01110u8, 0b10001, 0b10001, 0b10001, 0b10101, 0b10010, 0b01101],
        'R' => seq![0b11110u8, 0b10001, 0b10001, 0b11110, 0b10100, 0b10010, 0b10001],
        'S' => seq![0b01111u8, 0b10000, 0b10000, 0b01110, 0b00001, 0b00001, 0b11110],
        'T' => seq![0b11111u8, 0b00100, 0b00100, 0b00100, 0b00100, 0b00100, 0b00100],
        'U' => seq![0b10001u8, 0b10001, 0b10001, 0b10001, 0b10001, 0b10001, 0b01110],
        'V' => seq![0b10001u8, 0b10001, 0b10001, 0b10001, 0b10001, 0b01010, 0b00100],
        'W' => seq![0b10001u8, 0b10001, 0b10001, 0b10101, 0b10101, 0b11011, 0b10001],
        'X' => seq![0b10001u8, 0b10001, 0b01010, 0b00100, 0b01010, 0b10001, 0b10001],
        'Y' => seq![0b10001u8, 0b10001, 0b01010, 0b00100, 0b00100, 0b00100, 0b00100],
        'Z' => seq![0b11111u8, 0b00001, 0b00010, 0b00100, 0b01000, 0b10000, 0b11111],
        ':' => seq![0b00000u8, 0b00100, 0b00100, 0b00000, 0b00100, 0b00100, 0b00000],
        '.' => seq![0b00000u8, 0b00000, 0b00000, 0b00000, 0b00000, 0b00110, 0b00110],
        '/' => seq![0b00001u8, 0b00010, 0b00010, 0b00100, 0b01000, 0b01000, 0b10000],
        _ => seq![0u8, 0, 0, 0, 0, 0, 0],
    }
}

/// The characters the font draws: digits, upper-case letters, `:`, `.` and `/`.
pub open spec fn has_glyph(c: char) -> bool {
    ('0' <= c && c <= '9') || ('A' <= c && c <= 'Z') || c == ':' || c == '.' || c == '/'
}

/// Column `gx` (0 = leftmost) of a glyph row is set.
pub open spec fn glyph_bit(row: u8, gx: int) -> bool {
    0 <= gx < 5 && (row >> ((4 - gx) as u8)) & 1u8 == 1u8
}

/// The bitmap of `c`, as `glyph_rows` gives it.
pub fn glyph(c: char) -> (rows: [u8; 7])
    ensures
        rows@ == glyph_rows(c),
{
    let rows: [u8; 7] = match c {
        '0' => [0b01110, 0b10001, 0b10011, 0b10101, 0b11001, 0b10001, 0b01110],
        '1' => [0b00100, 0b01100, 0b00100, 0b00100, 0b00100, 0b00100, 0b01110],
        '2' => [0b01110, 0b10001, 0b00001, 0b00010, 0b00100, 0b01000, 0b11111],
        '3' => [0b11111, 0b00010, 0b00100, 0b00010, 0b00001, 0b10001, 0b01110],
        '4' => [0b00010, 0b00110, 0b01010, 0b10010, 0b11111, 0b00010, 0b00010],
        '5' => [0b11111, 0b10000, 0b11110, 0b00001, 0b00001, 0b10001, 0b01110],
        '6' => [0b00110, 0b01000, 0b10000, 0b11110, 0b10001, 0b10001, 0b01110],
        '7' => [0b11111, 0b00001, 0b00010, 0b00100, 0b01000, 0b01000, 0b01000],
        '8' => [0b01110, 0b10001, 0b10001, 0b01110, 0b10001, 0b10001, 0b01110],
        '9' => [0b01110, 0b10001, 0b10001, 0b01111, 0b00001, 0b00010, 0b01100],
        'A' => [0b01110, 0b10001, 0b10001, 0b11111, 0b10001, 0b10001, 0b10001],
        'B' => [0b11110, 0b10001, 0b10001, 0b11110, 0b10001, 0b10001, 0b11110],
        'C' => [0b01110, 0b10001, 0b10000, 0b10000, 0b10000, 0b10001, 0b01110],
        'D' => [0b11100, 0b10010, 0b10001, 0b10001, 0b10001, 0b10010, 0b11100],
        'E' => [0b11111, 0b10000, 0b10000, 0b11110, 0b10000, 0b10000, 0b11111],
        'F' => [0b11111, 0b10000, 0b10000, 0b11110, 0b10000, 0b10000, 0b10000],
        'G' => [0b01110, 0b10001, 0b10000, 0b10111, 0b10001, 0b10001, 0b01111],
        'H' => [0b10001, 0b10001, 0b10001, 0b11111, 0b10001, 0b10001, 0b10001],
        'I' => [0b01110, 0b00100, 0b00100, 0b00100, 0b00100, 0b00100, 0b01110],
        'J' => [0b00111, 0b00010, 0b00010, 0b00010, 0b00010, 0b10010, 0b01100],
        'K' => [0b10001, 0b10010, 0b10100, 0b11000, 0b10100, 0b10010, 0b10001],
        'L' => [0b10000, 0b10000, 0b10000, 0b10000, 0b10000, 0b10000, 0b11111],
        'M' => [0b10001, 0b11011, 0b10101, 0b10101, 0b10001, 0b10001, 0b10001],
        'N' => [0b10001, 0b10001, 0b11001, 0b10101, 0b10011, 0b10001, 0b10001],
        'O' => [0b01110, 0b10001, 0b10001, 0b10001, 0b10001, 0b10001, 0b01110],
        'P' => [0b11110, 0b10001, 0b10001, 0b11110, 0b10000, 0b10000, 0b10000],
        'Q' => [0b01110, 0b10001, 0b10001, 0b10001, 0b10101, 0b10010, 0b01101],
        'R' => [0b11110, 0b10001, 0b10001, 0b11110, 0b10100, 0b10010, 0b10001],
        'S' => [0b01111, 0b10000, 0b10000, 0b01110, 0b00001, 0b00001, 0b11110],
        'T' => [0b11111, 0b00100, 0b00100, 0b00100, 0b00100, 0b00100, 0b00100],
        'U' => [0b10001, 0b10001, 0b10001, 0b10001, 0b10001, 0b10001, 0b01110],
        'V' => [0b10001, 0b10001, 0b10001, 0b10001, 0b10001, 0b01010, 0b00100],
        'W' => [0b10001, 0b10001, 0b10001, 0b10101, 0b10101, 0b11011, 0b10001],
        'X' => [0b10001, 0b10001, 0b01010, 0b00100, 0b01010, 0b10001, 0b10001],
        'Y' => [0b10001, 0b10001, 0b01010, 0b00100, 0b00100, 0b00100, 0b00100],
        'Z' => [0b11111, 0b00001, 0b00010, 0b00100, 0b01000, 0b10000, 0b11111],
        ':' => [0b00000, 0b00100, 0b00100, 0b00000, 0b00100, 0b00100, 0b00000],
        '.' => [0b00000, 0b00000, 0b00000, 0b00000, 0b00000, 0b00110, 0b00110],
        '/' => [0b00001, 0b00010, 0b00010, 0b00100, 0b01000, 0b01000, 0b10000],
        _ => [0; 7],
    };
    assert(rows@ =~= glyph_rows(c));
    rows
}

/// Every glyph is seven rows of five columns: no row uses a bit above the fifth.
pub proof fn lemma_glyph_rows_are_five_wide(c: char)
    ensures
        glyph_rows(c).len() == 7,
        forall|r: int| 0 <= r < 7 ==> #[trigger] glyph_rows(c)[r] < 32,
{
}

/// A character without a glyph (space, lower case, anything not encoded)
/// draws nothing.
pub proof fn lemma_unencoded_is_blank(c: char)
    requires
        !has_glyph(c),
    ensures
        forall|r: int, gx: int| 0 <= r < 7 ==> !#[trigger] glyph_bit(glyph_rows(c)[r], gx),
{
    assert(glyph_rows(c) == seq![0u8, 0, 0, 0, 0, 0, 0]);
    assert forall|r: int, gx: int| 0 <= r < 7 implies !#[trigger] glyph_bit(glyph_rows(c)[r], gx) by {
        let z = glyph_rows(c)[r];
        assert(z == 0u8);
        if 0 <= gx < 5 {
            let s = (4 - gx) as u8;
            assert((z >> s) & 1u8 == 0u8) by (bit_vector)
                requires z == 0u8;
        }
    }
}

/// Every encoded character draws at least one pixel.
pub proof fn lemma_encoded_is_visible(c: char)
    requires
        has_glyph(c),
    ensures
        exists|r: int, gx: int| 0 <= r < 7 && #[trigger] glyph_bit(glyph_rows(c)[r], gx),
{
    let row = glyph_rows(c)[5];
    assert(row != 0u8);
    assert(row < 32u8);
    assert(exists|gx: int| 0 <= gx < 5 && glyph_bit(row, gx)) by {
        assert(row != 0u8 && row < 32u8 ==> ((row >> 4u8) & 1u8 == 1u8 || (row >> 3u8) & 1u8 == 1u8
            || (row >> 2u8) & 1u8 == 1u8 || (row >> 1u8) & 1u8 == 1u8 || (row >> 0u8) & 1u8 == 1u8))
            by (bit_vector);
        if (row >> 4u8) & 1u8 == 1u8 {
            assert(glyph_bit(row, 0));
        } else if (row >> 3u8) & 1u8 == 1u8 {
            assert(glyph_bit(row, 1));
        } else if (row >> 2u8) & 1u8 == 1u8 {
            assert(glyph_bit(row, 2));
        } else if (row >> 1u8) & 1u8 == 1u8 {
            assert(glyph_bit(row, 3));
        } else {
            assert(glyph_bit(row, 4));
        }
    }
}

/// When `text` is drawn with its top-left corner at (`x`, `y`) and each font
/// pixel a `scale`×`scale` block, the pixel at column `px`, row `py` falls in
/// character `(px - x) / (6 * scale)`, glyph row `(py - y) / scale` and glyph
/// column `((px - x) % (6 * scale)) / scale`, and is inked exactly when that
/// glyph bit is set (characters are upper-cased first; the sixth column of each
/// cell is the gap between characters).
pub open spec fn text_ink(text: Seq<char>, x: int, y: int, scale: int, px: int, py: int) -> bool {
    let cell = (GLYPH_W + 1) * scale;
    let dx = px - x;
    let dy = py - y;
    &&& scale > 0
    &&& 0 <= dx
    &&& 0 <= dy
    &&& dx / cell < text.len()
    &&& dy / scale < GLYPH_H
    &&& glyph_bit(glyph_rows(spec_upper(text[dx / cell]))[dy / scale], (dx % cell) / scale)
}

/// Pixel `i` of a `w × h` row-major buffer lies in the image and is inked by
/// the text.
pub open spec fn text_covers(
    i: int,
    w: u32,
    h: u32,
    text: Seq<char>,
    x: int,
    y: int,
    scale: int,
) -> bool {
    &&& w > 0
    &&& 0 <= i
    &&& i % (w as int) < i32_clip(w)
    &&& i / (w as int) < i32_clip(h)
    &&& text_ink(text, x, y, scale, i % (w as int), i / (w as int))
}

/// An offset `d` lies in column `g` of cell `k` (cells `6 * s` wide, columns
/// `s` wide) exactly when dividing it out gives back `k` and `g`.
proof fn lemma_cell_column(d: int, s: int, k: int, g: int)
    requires
        s > 0,
        k >= 0,
        0 <= g < 5,
    ensures
        (k * (6 * s) + g * s <= d < k * (6 * s) + g * s + s) <==> (0 <= d && d / (6 * s) == k && (
        d % (6 * s)) / s == g),
{
    let c = 6 * s;
    if k * c + g * s <= d < k * c + g * s + s {
        let t = d - k * c - g * s;
        assert(0 <= g * s + t < c) by (nonlinear_arith)
            requires 0 <= g < 5, 0 <= t < s, c == 6 * s;
        assert(0 <= k * c) by (nonlinear_arith)
            requires k >= 0, c > 0;
        lemma_fundamental_div_mod_converse(d, c, k, g * s + t);
        lemma_fundamental_div_mod_converse(g * s + t, s, g, t);
    }
    if 0 <= d && d / c == k && (d % c) / s == g {
        lemma_fundamental_div_mod(d, c);
        lemma_mod_pos_bound(d, c);
        let m = d % c;
        lemma_fundamental_div_mod(m, s);
        lemma_mod_pos_bound(m, s);
        assert(c * (d / c) == k * c) by (nonlinear_arith)
            requires d / c == k;
        assert(s * (m / s) == g * s) by (nonlinear_arith)
            requires m / s == g;
    }
}

/// An offset `e` lies in row `r` (rows `s` tall) exactly when `e / s == r`.
proof fn lemma_cell_row(e: int, s: int, r: int)
    requires
        s > 0,
        r >= 0,
    ensures
        (r * s <= e < r * s + s) <==> (0 <= e && e / s == r),
{
    if r * s <= e < r * s + s {
        assert(0 <= r * s) by (nonlinear_arith)
            requires r >= 0, s > 0;
        lemma_fundamental_div_mod_converse(e, s, r, e - r * s);
    }
    if 0 <= e && e / s == r {
        lemma_fundamental_div_mod(e, s);
        lemma_mod_pos_bound(e, s);
        assert(s * (e / s) == r * s) by (nonlinear_arith)
            requires e / s == r;
    }
}

/// Every image pixel the text inks lies inside a buffer of `len` pixels, and
/// its row-major index fits the `u32` index arithmetic.
pub open spec fn text_fits(len: int, w: u32, h: u32, text: Seq<char>, x: int, y: int, scale: int) -> bool {
    forall|px: int, py: int|
        0 <= px < i32_clip(w) && 0 <= py < i32_clip(h) && #[trigger] text_ink(text, x, y, scale, px, py)
            ==> py * (w as int) + px < len && py * (w as int) + px <= u32::MAX
}

/// A buffer holding the whole `w × h` image, with `w × h` addressable by
/// `u32`, takes any text.
pub proof fn lemma_image_fits_text(len: int, w: u32, h: u32, text: Seq<char>, x: int, y: int, scale: int)
    requires
        (w as int) * (h as int) <= len,
        (w as int) * (h as int) <= u32::MAX as int + 1,
    ensures
        text_fits(len, w, h, text, x, y, scale),
{
    assert forall|px: int, py: int|
        0 <= px < i32_clip(w) && 0 <= py < i32_clip(h) && #[trigger] text_ink(text, x, y, scale, px, py)
            implies py * (w as int) + px < len && py * (w as int) + px <= u32::MAX by {
        assert(py * (w as int) + px < (w as int) * (h as int)) by (nonlinear_arith)
            requires 0 <= px < w, 0 <= py < h;
    }
}

/// The block that a set font pixel (`ry`, `gx`) of character `k` is drawn as,
/// at (`px`, `py`), fits the buffer when the text does.
proof fn lemma_block_fits(
    len: int,
    w: u32,
    h: u32,
    text: Seq<char>,
    x: int,
    y: int,
    s: int,
    k: int,
    ry: int,
    gx: int,
    px: int,
    py: int,
)
    requires
        text_fits(len, w, h, text, x, y, s),
        s > 0,
        0 <= k < text.len(),
        0 <= ry < 7,
        0 <= gx < 5,
        glyph_bit(glyph_rows(spec_upper(text[k]))[ry], gx),
        px == x + k * (6 * s) + gx * s,
        py == y + ry * s,
    ensures
        rect_fits(len, w, h, px, py, px + s, py + s),
{
    let cx0 = if px < 0 { 0 } else { px };
    let cy0 = if py < 0 { 0 } else { py };
    let cx1 = if px + s < i32_clip(w) { px + s } else { i32_clip(w) };
    let cy1 = if py + s < i32_clip(h) { py + s } else { i32_clip(h) };
    if cx0 < cx1 && cy0 < cy1 {
        let qx = cx1 - 1;
        let qy = cy1 - 1;
        lemma_cell_column(qx - x, s, k, gx);
        lemma_cell_row(qy - y, s, ry);
        assert(text_ink(text, x, y, s, qx, qy));
    }
}

/// Pixel `i` is inked by the text and its glyph cell comes before cell
/// (`k`, `r`, `g`) in drawing order (character, then row, then column).
spec fn drawn_before(
    i: int,
    w: u32,
    h: u32,
    text: Seq<char>,
    x: int,
    y: int,
    s: int,
    k: int,
    r: int,
    g: int,
) -> bool {
    let c = 6 * s;
    let dx = i % (w as int) - x;
    let dy = i / (w as int) - y;
    &&& text_covers(i, w, h, text, x, y, s)
    &&& (dx / c < k || (dx / c == k && (dy / s < r || (dy / s == r && (dx % c) / s < g))))
}

/// The block that font pixel (`r`, `g`) of character `k` is drawn as covers
/// exactly the image pixels whose glyph cell is (`k`, `r`, `g`).
proof fn lemma_block(i: int, w: u32, h: u32, x: int, y: int, s: int, k: int, r: int, g: int)
    requires
        s > 0,
        k >= 0,
        r >= 0,
        0 <= g < 5,
    ensures
        in_rect(
            i,
            w,
            h,
            x + k * (6 * s) + g * s,
            y + r * s,
            x + k * (6 * s) + g * s + s,
            y + r * s + s,
        ) <==> (w > 0 && 0 <= i && i % (w as int) < i32_clip(w) && i / (w as int) < i32_clip(h)
            && 0 <= i % (w as int) - x && (i % (w as int) - x) / (6 * s) == k && ((i % (w as int)
            - x) % (6 * s)) / s == g && 0 <= i / (w as int) - y && (i / (w as int) - y) / s == r),
{
    if w > 0 {
        lemma_cell_column(i % (w as int) - x, s, k, g);
        lemma_cell_row(i / (w as int) - y, s, r);
    }
}

/// `x + t * s` stays between `x` and `x + m * s` for `0 <= t <= m`.
proof fn lemma_between(x: int, s: int, t: int, m: int)
    requires
        0 <= t <= m,
    ensures
        s >= 0 ==> x <= x + t * s <= x + m * s,
        s < 0 ==> x + m * s <= x + t * s <= x,
{
    if s >= 0 {
        assert(0 <= t * s <= m * s) by (nonlinear_arith)
            requires 0 <= t <= m, s >= 0;
    } else {
        assert(m * s <= t * s <= 0) by (nonlinear_arith)
            requires 0 <= t <= m, s < 0;
    }
}

/// Draw `text` with its top-left corner at (`x`, `y`), each font pixel a
/// `scale`×`scale` block of `color`, characters upper-cased and set six font
/// pixels apart. Exactly the pixels `text_covers` names change, to `color`.
pub fn draw_text(
    buf: &mut [u32],
    w: u32,
    h: u32,
    x: i32,
    y: i32,
    scale: i32,
    color: u32,
    text: &str,
)
    requires
        text_fits(old(buf)@.len() as int, w, h, text@, x as int, y as int, scale as int),
        text@.len() > 0 ==> {
            &&& i32::MIN <= 6 * scale <= i32::MAX
            &&& i32::MIN <= x + text@.len() * (6 * scale) <= i32::MAX
            &&& i32::MIN <= y + 7 * scale <= i32::MAX
        },
    ensures
        final(buf)@.len() == old(buf)@.len(),
        forall|i: int|
            0 <= i < old(buf)@.len() ==> #[trigger] final(buf)@[i] == if text_covers(
                i,
                w,
                h,
                text@,
                x as int,
                y as int,
                scale as int,
            ) {
                color
            } else {
                old(buf)@[i]
            },
{
    let ghost orig = buf@;
    let ghost n = text@.len() as int;
    let ghost s = scale as int;
    let mut cx: i32 = x;
    for ch in it: text.chars()
        invariant
            it.seq() == text@,
            n == text@.len(),
            s == scale,
            text_fits(orig.len() as int, w, h, text@, x as int, y as int, s),
            n > 0 ==> {
                &&& i32::MIN <= 6 * s <= i32::MAX
                &&& i32::MIN <= x + n * (6 * s) <= i32::MAX
                &&& i32::MIN <= y + 7 * s <= i32::MAX
            },
            cx == x + it.index() * (6 * s),
            buf@.len() == orig.len(),
            forall|i: int|
                0 <= i < orig.len() ==> #[trigger] buf@[i] == if drawn_before(
                    i,
                    w,
                    h,
                    text@,
                    x as int,
                    y as int,
                    s,
                    it.index() as int,
                    0,
                    0,
                ) {
                    color
                } else {
                    orig[i]
                },
    {
        let ghost k = it.index() as int;
        assert(ch == text@[k]);
        let g = glyph(to_upper(ch));
        let mut ry: usize = 0;
        while ry < 7
            invariant
                0 <= k < n,
                n == text@.len(),
                s == scale,
                ch == text@[k],
                g@ == glyph_rows(spec_upper(ch)),
                0 <= ry <= 7,
                text_fits(orig.len() as int, w, h, text@, x as int, y as int, s),
                i32::MIN <= 6 * s <= i32::MAX,
                i32::MIN <= x + n * (6 * s) <= i32::MAX,
                i32::MIN <= y + 7 * s <= i32::MAX,
                cx == x + k * (6 * s),
                buf@.len() == orig.len(),
                forall|i: int|
                    0 <= i < orig.len() ==> #[trigger] buf@[i] == if drawn_before(
                        i,
                        w,
                        h,
                        text@,
                        x as int,
                        y as int,
                        s,
                        k,
                        ry as int,
                        0,
                    ) {
                        color
                    } else {
                        orig[i]
                    },
            decreases 7 - ry,
        {
            let row = g[ry];
            let mut gx: i32 = 0;
            while gx < GLYPH_W
                invariant
                    0 <= k < n,
                    n == text@.len(),
                    s == scale,
                    ch == text@[k],
                    row == glyph_rows(spec_upper(ch))[ry as int],
                    0 <= ry < 7,
                    0 <= gx <= 5,
                    text_fits(orig.len() as int, w, h, text@, x as int, y as int, s),
                    i32::MIN <= 6 * s <= i32::MAX,
                    i32::MIN <= x + n * (6 * s) <= i32::MAX,
                    i32::MIN <= y + 7 * s <= i32::MAX,
                    cx == x + k * (6 * s),
                    buf@.len() == orig.len(),
                    forall|i: int|
                        0 <= i < orig.len() ==> #[trigger] buf@[i] == if drawn_before(
                            i,
                            w,
                            h,
                            text@,
                            x as int,
                            y as int,
                            s,
                            k,
                            ry as int,
                            gx as int,
                        ) {
                            color
                        } else {
                            orig[i]
                        },
                decreases 5 - gx,
            {
                let sh: u8 = (GLYPH_W - 1 - gx) as u8;
                let bit = row & (1u8 << sh) != 0;
                assert(bit == ((row >> sh) & 1u8 == 1u8)) by (bit_vector)
                    requires bit == (row & (1u8 << sh) != 0), sh < 8;
                assert(bit == glyph_bit(row, gx as int));
                let ghost pre = buf@;
                if bit {
                    proof {
                        lemma_between(x as int, s, 6 * k + gx, 6 * n);
                        lemma_between(x as int, s, 6 * k + gx + 1, 6 * n);
                        lemma_between(y as int, s, ry as int, 7);
                        lemma_between(y as int, s, ry as int + 1, 7);
                        lemma_between(0, s, gx as int, 6);
                        lemma_between(0, s, ry as int, 6);
                        assert(k * (6 * s) + gx * s == (6 * k + gx) * s) by (nonlinear_arith);
                        assert(k * (6 * s) + gx * s + s == (6 * k + gx + 1) * s) by (nonlinear_arith);
                        assert(ry * s + s == (ry + 1) * s) by (nonlinear_arith);
                        assert(n * (6 * s) == (6 * n) * s) by (nonlinear_arith);
                        assert(7 * s == 7 * s);
                    }
                    let px = cx + gx * scale;
                    let py = y + ry as i32 * scale;
                    proof {
                        if s > 0 {
                            lemma_block_fits(
                                orig.len() as int,
                                w,
                                h,
                                text@,
                                x as int,
                                y as int,
                                s,
                                k,
                                ry as int,
                                gx as int,
                                px as int,
                                py as int,
                            );
                        }
                    }
                    fill_rect(buf, w, h, px, py, px + scale, py + scale, color);
                }
                assert forall|i: int| 0 <= i < orig.len() implies #[trigger] buf@[i] == if drawn_before(
                    i,
                    w,
                    h,
                    text@,
                    x as int,
                    y as int,
                    s,
                    k,
                    ry as int,
                    gx + 1,
                ) {
                    color
                } else {
                    orig[i]
                } by {
                    if s > 0 {
                        lemma_block(i, w, h, x as int, y as int, s, k, ry as int, gx as int);
                        if w > 0 && i >= 0 {
                            lemma_pixel_coords(i, w as int);
                        }
                    } else {
                        assert(!text_covers(i, w, h, text@, x as int, y as int, s));
                    }
                }
                gx = gx + 1;
            }
            assert forall|i: int| 0 <= i < orig.len() implies drawn_before(
                i,
                w,
                h,
                text@,
                x as int,
                y as int,
                s,
                k,
                ry as int,
                5,
            ) == drawn_before(i, w, h, text@, x as int, y as int, s, k, ry + 1, 0) by {}
            ry = ry + 1;
        }
        assert forall|i: int| 0 <= i < orig.len() implies drawn_before(
            i,
            w,
            h,
            text@,
            x as int,
            y as int,
            s,
            k,
            7,
            0,
        ) == drawn_before(i, w, h, text@, x as int, y as int, s, k + 1, 0, 0) by {}
        proof {
            lemma_between(x as int, s, k + 1, n);
            assert(x + (k + 1) * (6 * s) == x + k * (6 * s) + 6 * s) by (nonlinear_arith);
            lemma_between(x as int, 6 * s, k + 1, n);
        }
        cx = cx + (GLYPH_W + 1) * scale;
    }
    assert forall|i: int| 0 <= i < orig.len() implies drawn_before(
        i,
        w,
        h,
        text@,
        x as int,
        y as int,
        s,
        n,
        0,
        0,
    ) == text_covers(i, w, h, text@, x as int, y as int, s) by {}
}

/// Rendered width of `text` at `scale`, in pixels: each character takes a
/// five-pixel glyph and a one-pixel gap, times `scale`.
pub open spec fn spec_text_width(n: int, scale: int) -> int {
    n * ((GLYPH_W + 1) * scale)
}

/// Rendered width of `text` at `scale`, in pixels (glyphs are 5 wide plus a
/// 1-pixel gap).
pub fn text_width(text: &str, scale: i32) -> (width: i32)
    requires
        text@.len() <= i32::MAX,
        text@.len() * (GLYPH_W + 1) <= i32::MAX,
        i32::MIN <= text@.len() * (GLYPH_W + 1) * scale <= i32::MAX,
    ensures
        width == spec_text_width(text@.len() as int, scale as int),
{
    let n = text.unicode_len();
    let width = n as i32 * (GLYPH_W + 1) * scale;
    assert(text@.len() * (GLYPH_W + 1) * scale == text@.len() * ((GLYPH_W + 1) * scale))
        by (nonlinear_arith);
    width
}

/// Drawn text stays inside its box: `text_width` pixels wide from `x` and
/// seven font pixels tall from `y`.
pub proof fn lemma_text_within_box(
    i: int,
    w: u32,
    h: u32,
    text: Seq<char>,
    x: int,
    y: int,
    scale: int,
)
    requires
        text_covers(i, w, h, text, x, y, scale),
    ensures
        x <= i % (w as int) < x + spec_text_width(text.len() as int, scale),
        y <= i / (w as int) < y + GLYPH_H * scale,
{
    let c = 6 * scale;
    let dx = i % (w as int) - x;
    let dy = i / (w as int) - y;
    lemma_fundamental_div_mod(dx, c);
    lemma_mod_pos_bound(dx, c);
    lemma_fundamental_div_mod(dy, scale);
    lemma_mod_pos_bound(dy, scale);
    let q = dx / c;
    let n = text.len() as int;
    assert(c * q + c <= n * c) by (nonlinear_arith)
        requires q + 1 <= n, c > 0;
    let r = dy / scale;
    assert(scale * r + scale <= 7 * scale) by (nonlinear_arith)
        requires r + 1 <= 7, scale > 0;
}

/// The scale for a status line that must fit `avail` pixels: the largest
/// scale at which it fits, but never below 1 nor above `max_scale`.
pub open spec fn spec_fit_scale(avail: int, n: int, max_scale: int) -> int {
    let room = if avail < 1 { 1 } else { avail };
    let unit = if spec_text_width(n, 1) < 1 { 1 } else { spec_text_width(n, 1) };
    let fit = room / unit;
    if fit < 1 { 1 } else if fit > max_scale { max_scale } else { fit }
}

/// Shrink the status text below `max_scale` when it would overflow the
/// `avail` pixels left for it.
pub fn fit_text_scale(avail: i32, text: &str, max_scale: i32) -> (scale: i32)
    requires
        max_scale >= 1,
        text@.len() * (GLYPH_W + 1) <= i32::MAX,
    ensures
        scale == spec_fit_scale(avail as int, text@.len() as int, max_scale as int),
        1 <= scale <= max_scale,
        scale > 1 ==> spec_text_width(text@.len() as int, scale as int) <= if avail < 1 {
            1
        } else {
            avail as int
        },
{
    let room = if avail < 1 { 1 } else { avail };
    let tw = text_width(text, 1);
    let unit = if tw < 1 { 1 } else { tw };
    let fit = room / unit;
    let scale = if fit < 1 { 1 } else if fit > max_scale { max_scale } else { fit };
    proof {
        let n = text@.len() as int;
        if scale > 1 {
            assert(unit >= 6 * n);
            lemma_fundamental_div_mod(room as int, unit as int);
            lemma_mod_pos_bound(room as int, unit as int);
            assert(scale <= fit);
            assert(n * (6 * scale) <= unit * fit) by (nonlinear_arith)
                requires unit >= 6 * n, scale <= fit, n >= 0, scale > 1;
        }
    }
    scale
}

/// Text is drawn upper-cased: drawing `text` inks exactly the pixels that
/// drawing its ASCII upper case inks.
pub proof fn lemma_draw_upper_case(text: Seq<char>, w: u32, h: u32, x: int, y: int, scale: int)
    ensures
        forall|i: int|
            #[trigger] text_covers(i, w, h, text, x, y, scale) == text_covers(
                i,
                w,
                h,
                upper_seq(text),
                x,
                y,
                scale,
            ),
{
    assert forall|i: int|
        #[trigger] text_covers(i, w, h, text, x, y, scale) == text_covers(
            i,
            w,
            h,
            upper_seq(text),
            x,
            y,
            scale,
        ) by {
        let cell = (GLYPH_W + 1) * scale;
        let k = (i % (w as int) - x) / cell;
        if 0 <= k < text.len() {
            let c = text[k];
            assert(upper_seq(text)[k] == spec_upper(c));
            assert(spec_upper(spec_upper(c)) == spec_upper(c));
        }
    }
}

/// The font table: the bitmap of every encoded character, row by row (most
/// significant of five bits = leftmost column). A character that is not
/// encoded draws nothing.
pub proof fn lemma_font_table(c: char)
    ensures
        glyph_rows('0') == seq![0b01110u8, 0b10001, 0b10011, 0b10101, 0b11001, 0b10001, 0b01110],
        glyph_rows('1') == seq![0b00100u8, 0b01100, 0b00100, 0b00100, 0b00100, 0b00100, 0b01110],
        glyph_rows('2') == seq![0b01110u8, 0b10001, 0b00001, 0b00010, 0b00100, 0b01000, 0b11111],
        glyph_rows('3') == seq![0b11111u8, 0b00010, 0b00100, 0b00010, 0b00001, 0b10001, 0b01110],
        glyph_rows('4') == seq![0b00010u8, 0b00110, 0b01010, 0b10010, 0b11111, 0b00010, 0b00010],
        glyph_rows('5') == seq![0b11111u8, 0b10000, 0b11110, 0b00001, 0b00001, 0b10001, 0b01110],
        glyph_rows('6') == seq![0b00110u8, 0b01000, 0b10000, 0b11110, 0b10001, 0b10001, 0b01110],
        glyph_rows('7') == seq![0b11111u8, 0b00001, 0b00010, 0b00100, 0b01000, 0b01000, 0b01000],
        glyph_rows('8') == seq![0b01110u8, 0b10001, 0b10001, 0b01110, 0b10001, 0b10001, 0b01110],
        glyph_rows('9') == seq![0b01110u8, 0b10001, 0b10001, 0b01111, 0b00001, 0b00010, 0b01100],
        glyph_rows('A') == seq![0b01110u8, 0b10001, 0b10001, 0b11111, 0b10001, 0b10001, 0b10001],
        glyph_rows('B') == seq![0b11110u8, 0b10001, 0b10001, 0b11110, 0b10001, 0b10001, 0b11110],
        glyph_rows('C') == seq![0b01110u8, 0b10001, 0b10000, 0b10000, 0b10000, 0b10001, 0b01110],
        glyph_rows('D') == seq![0b11100u8, 0b10010, 0b10001, 0b10001, 0b10001, 0b10010, 0b11100],
        glyph_rows('E') == seq![0b11111u8, 0b10000, 0b10000, 0b11110, 0b10000, 0b10000, 0b11111],
        glyph_rows('F') == seq![0b11111u8, 0b10000, 0b10000, 0b11110, 0b10000, 0b10000, 0b10000],
        glyph_rows('G') == seq![0b01110u8, 0b10001, 0b10000, 0b10111, 0b10001, 0b10001, 0b01111],
        glyph_rows('H') == seq![0b10001u8, 0b10001, 0b10001, 0b11111, 0b10001, 0b10001, 0b10001],
        glyph_rows('I') == seq![0b01110u8, 0b00100, 0b00100, 0b00100, 0b00100, 0b00100, 0b01110],
        glyph_rows('J') == seq![0b00111u8, 0b00010, 0b00010, 0b00010, 0b00010, 0b10010, 0b01100],
        glyph_rows('K') == seq![0b10001u8, 0b10010, 0b10100, 0b11000, 0b10100, 0b10010, 0b10001],
        glyph_rows('L') == seq![0b10000u8, 0b10000, 0b10000, 0b10000, 0b10000, 0b10000, 0b11111],
        glyph_rows('M') == seq![0b10001u8, 0b11011, 0b10101, 0b10101, 0b10001, 0b10001, 0b10001],
        glyph_rows('N') == seq![0b10001u8, 0b10001, 0b11001, 0b10101, 0b10011, 0b10001, 0b10001],
        glyph_rows('O') == seq![0b01110u8, 0b10001, 0b10001, 0b10001, 0b10001, 0b10001, 0b01110],
        glyph_rows('P') == seq![0b11110u8, 0b10001, 0b10001, 0b11110, 0b10000, 0b10000, 0b10000],
        glyph_rows('Q') == seq![0b01110u8, 0b10001, 0b10001, 0b10001, 0b10101, 0b10010, 0b01101],
        glyph_rows('R') == seq![0b11110u8, 0b10001, 0b10001, 0b11110, 0b10100, 0b10010, 0b10001],
        glyph_rows('S') == seq![0b01111u8, 0b10000, 0b10000, 0b01110, 0b00001, 0b00001, 0b11110],
        glyph_rows('T') == seq![0b11111u8, 0b00100, 0b00100, 0b00100, 0b00100, 0b00100, 0b00100],
        glyph_rows('U') == seq![0b10001u8, 0b10001, 0b10001, 0b10001, 0b10001, 0b10001, 0b01110],
        glyph_rows('V') == seq![0b10001u8, 0b10001, 0b10001, 0b10001, 0b10001, 0b01010, 0b00100],
        glyph_rows('W') == seq![0b10001u8, 0b10001, 0b10001, 0b10101, 0b10101, 0b11011, 0b10001],
        glyph_rows('X') == seq![0b10001u8, 0b10001, 0b01010, 0b00100, 0b01010, 0b10001, 0b10001],
        glyph_rows('Y') == seq![0b10001u8, 0b10001, 0b01010, 0b00100, 0b00100, 0b00100, 0b00100],
        glyph_rows('Z') == seq![0b11111u8, 0b00001, 0b00010, 0b00100, 0b01000, 0b10000, 0b11111],
        glyph_rows(':') == seq![0b00000u8, 0b00100, 0b00100, 0b00000, 0b00100, 0b00100, 0b00000],
        glyph_rows('.') == seq![0b00000u8, 0b00000, 0b00000, 0b00000, 0b00000, 0b00110, 0b00110],
        glyph_rows('/') == seq![0b00001u8, 0b00010, 0b00010, 0b00100, 0b01000, 0b01000, 0b10000],
        !has_glyph(c) ==> glyph_rows(c) == seq![0u8, 0, 0, 0, 0, 0, 0],
{
}

} // verus!
