//! An RGBA canvas and the drawing operations on it.
//!
//! The canvas holds `w * h` pixels of four bytes each, row by row. Byte `i`
//! belongs to the pixel in column `(i / 4) % w` and row `(i / 4) / w`. Every
//! drawing operation paints a region of the plane in one colour: the pixels
//! of the canvas that lie in the region take the colour, all others keep
//! theirs, and the parts of the region outside the canvas are dropped.
use vstd::prelude::*;
use vstd::arithmetic::div_mod::{lemma_fundamental_div_mod, lemma_fundamental_div_mod_converse};
use crate::chars::chars_of;
use crate::font::{glyph, glyph_rows, row_has_col};
use crate::fill::{bar_fill, fill_width, pow2};

verus! {

/// The background colour of a fresh canvas (slate-900).
pub const BG: [u8; 4] = [15, 23, 42, 255];

/// A canvas of `w` by `h` RGBA pixels.
pub struct Canvas {
    pub pixels: Vec<u8>,
    pub w: u32,
    pub h: u32,
}

/// `pixels` with every pixel in `region` set to `color`.
pub open spec fn paint(
    pixels: Seq<u8>,
    w: int,
    region: spec_fn(int, int) -> bool,
    color: Seq<u8>,
) -> Seq<u8> {
    Seq::new(
        pixels.len(),
        |i: int|
            if region((i / 4) % w, (i / 4) / w) {
                color[i % 4]
            } else {
                pixels[i]
            },
    )
}

/// A `w` by `h` canvas filled with the background colour.
pub open spec fn blank(w: nat, h: nat) -> Seq<u8> {
    Seq::new(w * h * 4, |i: int| BG@[i % 4])
}

/// The rectangle with corner `(x, y)`, `w` wide and `h` high.
pub open spec fn in_rect(x: int, y: int, w: int, h: int, a: int, b: int) -> bool {
    x <= a < x + w && y <= b < y + h
}

/// Pixel `(a, b)` lies in one of the first `m` cells (row by row, five to a
/// row) of the glyph `rows` drawn with its corner at `(gx, gy)` and cells of
/// side `scale`, counting only the cells whose font bit is set.
pub open spec fn in_glyph_cells(
    gx: int,
    gy: int,
    rows: Seq<u8>,
    scale: int,
    m: int,
    a: int,
    b: int,
) -> bool
    decreases m,
{
    if m <= 0 {
        false
    } else {
        let r = (m - 1) / 5;
        let c = (m - 1) % 5;
        in_glyph_cells(gx, gy, rows, scale, m - 1, a, b) || (row_has_col(rows[r], c) && in_rect(
            gx + c * scale,
            gy + r * scale,
            scale,
            scale,
            a,
            b,
        ))
    }
}

/// Pixel `(a, b)` is inked by one of the first `n` characters of `s` drawn
/// from `(x, y)`: character `k` is drawn `6 * scale * k` to the right of `x`.
pub open spec fn in_text(x: int, y: int, s: Seq<char>, scale: int, n: int, a: int, b: int) -> bool
    decreases n,
{
    if n <= 0 {
        false
    } else {
        in_text(x, y, s, scale, n - 1, a, b) || in_glyph_cells(
            x + 6 * scale * (n - 1),
            y,
            glyph_rows(s[n - 1]),
            scale,
            35,
            a,
            b,
        )
    }
}

/// The width that `len` characters take at `scale`.
pub open spec fn text_width(len: int, scale: int) -> int {
    len * 6 * scale
}

/// Row `r` of the glyph `rows` has at least one dot.
pub open spec fn row_lit(rows: Seq<u8>, r: int) -> bool {
    row_has_col(rows[r], 0) || row_has_col(rows[r], 1) || row_has_col(rows[r], 2)
        || row_has_col(rows[r], 3) || row_has_col(rows[r], 4)
}

/// The `i32` arithmetic of drawing `s` at `(x, y)` does not overflow: the
/// pen advances `6 * scale` past every character, and a row of dots is
/// placed only where the glyph has one, so only the lit rows bound `y`.
pub open spec fn text_fits(x: int, y: int, s: Seq<char>, scale: int) -> bool {
    s.len() == 0 || {
        &&& 6 * scale <= i32::MAX
        &&& x + 6 * scale * s.len() <= i32::MAX
        &&& forall|k: int, r: int|
            0 <= k < s.len() && 0 <= r < 7 && #[trigger] row_lit(glyph_rows(s[k]), r) ==> y + r
                * scale + scale <= i32::MAX + 1
    }
}

/// A text whose whole box, `6 * scale` per character by `7 * scale`, lies in
/// the `i32` range fits.
pub proof fn lemma_text_box_fits(x: int, y: int, s: Seq<char>, scale: int)
    requires
        scale >= 0,
        s.len() == 0 || (6 * scale <= i32::MAX && x + 6 * scale * s.len() <= i32::MAX && y + 7
            * scale <= i32::MAX + 1),
    ensures
        text_fits(x, y, s, scale),
{
    assert forall|k: int, r: int|
        0 <= k < s.len() && 0 <= r < 7 && #[trigger] row_lit(glyph_rows(s[k]), r) implies y + r
            * scale + scale <= i32::MAX + 1 by {
        assert(r * scale + scale <= 7 * scale) by (nonlinear_arith)
            requires
                0 <= r < 7,
                scale >= 0,
        ;
    }
}

/// The `i32` arithmetic of a rectangle's pixel loop does not overflow.
pub open spec fn rect_fits(x: int, y: int, w: int, h: int) -> bool {
    w > 0 && h > 0 ==> x + w <= i32::MAX + 1 && y + h <= i32::MAX + 1
}

// ---------------------------------------------------------------------------
// Arithmetic of pixel positions
// ---------------------------------------------------------------------------

proof fn lemma_div_mod_pos(q: int, w: int, x: int, y: int)
    requires
        w > 0,
        0 <= x < w,
        0 <= y,
        q >= 0,
    ensures
        ((q % w == x && q / w == y) <==> q == y * w + x),
{
    lemma_fundamental_div_mod(q, w);
    if q == y * w + x {
        lemma_fundamental_div_mod_converse(q, w, y, x);
    }
    assert(q == w * (q / w) + q % w);
    assert(w * (q / w) == (q / w) * w) by (nonlinear_arith);
}

proof fn lemma_row_below(q: int, w: int, h: int)
    requires
        w > 0,
        0 <= q < w * h,
    ensures
        0 <= q % w < w,
        0 <= q / w < h,
{
    lemma_fundamental_div_mod(q, w);
    assert(q / w >= 0) by (nonlinear_arith)
        requires
            q >= 0,
            w > 0,
    ;
    if q / w >= h {
        assert(w * (q / w) >= w * h) by (nonlinear_arith)
            requires
                q / w >= h,
                w > 0,
        ;
    }
}

proof fn lemma_index_in_canvas(x: int, y: int, w: int, h: int)
    requires
        0 <= x < w,
        0 <= y < h,
    ensures
        0 <= y * w + x < w * h,
        (y * w + x) * 4 + 4 <= w * h * 4,
{
    assert(y * w + x < w * h) by (nonlinear_arith)
        requires
            0 <= x < w,
            0 <= y < h,
    ;
    assert(0 <= y * w) by (nonlinear_arith)
        requires
            0 <= y,
            0 <= w,
    ;
    assert(w * h * 4 == (w * h) * 4);
}

/// Law: painting a region that no pixel of the canvas lies in (such as a
/// point off the canvas) changes nothing.
pub proof fn law_paint_outside(px: Seq<u8>, w: int, h: int, region: spec_fn(int, int) -> bool, color: Seq<u8>)
    requires
        px.len() == w * h * 4,
        w >= 0,
        h >= 0,
        forall|a: int, b: int| 0 <= a < w && 0 <= b < h ==> !#[trigger] region(a, b),
    ensures
        paint(px, w, region, color) == px,
{
    assert forall|i: int| 0 <= i < px.len() implies #[trigger] paint(px, w, region, color)[i]
        == px[i] by {
        if w > 0 {
            lemma_row_below(i / 4, w, h);
        } else {
            assert(w * h * 4 == 0);
        }
    }
    assert(paint(px, w, region, color) =~= px);
}

/// Two regions that hold of the same points paint alike.
pub proof fn lemma_paint_ext(
    px: Seq<u8>,
    w: int,
    r1: spec_fn(int, int) -> bool,
    r2: spec_fn(int, int) -> bool,
    color: Seq<u8>,
)
    requires
        forall|a: int, b: int| #[trigger] r1(a, b) == r2(a, b),
    ensures
        paint(px, w, r1, color) == paint(px, w, r2, color),
{
    assert(paint(px, w, r1, color) =~= paint(px, w, r2, color));
}

/// Law: painting a region and then another in the same colour is painting
/// their union once.
pub proof fn law_paint_union(
    px: Seq<u8>,
    w: int,
    r1: spec_fn(int, int) -> bool,
    r2: spec_fn(int, int) -> bool,
    color: Seq<u8>,
)
    requires
        color.len() == 4,
    ensures
        paint(paint(px, w, r1, color), w, r2, color) == paint(
            px,
            w,
            |a: int, b: int| r1(a, b) || r2(a, b),
            color,
        ),
{
    assert(paint(paint(px, w, r1, color), w, r2, color) =~= paint(
        px,
        w,
        |a: int, b: int| r1(a, b) || r2(a, b),
        color,
    ));
}

/// Law: painting the same region twice in the same colour is painting it once.
pub proof fn law_paint_idempotent(
    px: Seq<u8>,
    w: int,
    region: spec_fn(int, int) -> bool,
    color: Seq<u8>,
)
    requires
        color.len() == 4,
    ensures
        paint(paint(px, w, region, color), w, region, color) == paint(px, w, region, color),
{
    assert(paint(paint(px, w, region, color), w, region, color) =~= paint(
        px,
        w,
        region,
        color,
    ));
}

/// Law: painting keeps the size of the pixel buffer, and a pixel outside the
/// region keeps its bytes.
pub proof fn law_paint_keeps_outside(
    px: Seq<u8>,
    w: int,
    region: spec_fn(int, int) -> bool,
    color: Seq<u8>,
    i: int,
)
    requires
        0 <= i < px.len(),
        !region((i / 4) % w, (i / 4) / w),
    ensures
        paint(px, w, region, color).len() == px.len(),
        paint(px, w, region, color)[i] == px[i],
{
}

proof fn lemma_in_glyph_cells_box(gx: int, gy: int, rows: Seq<u8>, scale: int, m: int, a: int, b: int)
    requires
        0 <= m <= 35,
        scale >= 0,
        in_glyph_cells(gx, gy, rows, scale, m, a, b),
    ensures
        gx <= a < gx + 5 * scale,
        gy <= b < gy + 7 * scale,
    decreases m,
{
    let r = (m - 1) / 5;
    let c = (m - 1) % 5;
    if in_glyph_cells(gx, gy, rows, scale, m - 1, a, b) {
        lemma_in_glyph_cells_box(gx, gy, rows, scale, m - 1, a, b);
    } else {
        assert(0 <= c < 5 && 0 <= r < 7);
        assert(c * scale + scale <= 5 * scale) by (nonlinear_arith)
            requires
                0 <= c < 5,
                scale >= 0,
        ;
        assert(r * scale + scale <= 7 * scale) by (nonlinear_arith)
            requires
                0 <= r < 7,
                scale >= 0,
        ;
        assert(c * scale >= 0 && r * scale >= 0) by (nonlinear_arith)
            requires
                0 <= c,
                0 <= r,
                scale >= 0,
        ;
    }
}

proof fn lemma_in_text_box(x: int, y: int, s: Seq<char>, scale: int, n: int, a: int, b: int)
    requires
        0 <= n,
        scale >= 0,
        in_text(x, y, s, scale, n, a, b),
    ensures
        n >= 1,
        x <= a < x + 6 * scale * (n - 1) + 5 * scale,
        a < x + text_width(n, scale),
        y <= b < y + 7 * scale,
    decreases n,
{
    assert(6 * scale * (n - 1) + 5 * scale <= text_width(n, scale)) by (nonlinear_arith)
        requires
            n >= 1,
            scale >= 0,
    ;
    if in_text(x, y, s, scale, n - 1, a, b) {
        lemma_in_text_box(x, y, s, scale, n - 1, a, b);
        assert(6 * scale * (n - 2) <= 6 * scale * (n - 1)) by (nonlinear_arith)
            requires
                scale >= 0,
        ;
    } else {
        lemma_in_glyph_cells_box(x + 6 * scale * (n - 1), y, glyph_rows(s[n - 1]), scale, 35, a, b);
        assert(6 * scale * (n - 1) >= 0) by (nonlinear_arith)
            requires
                n >= 1,
                scale >= 0,
        ;
    }
}

/// Law: text stays inside its box: every pixel that drawing `s` at `(x, y)`
/// inks lies in the rectangle at `(x, y)` that reaches the right edge of the
/// last glyph (`6 * scale` per character before it, `5 * scale` for it) and
/// is `7 * scale` high; so it also lies in the `text_width(len, scale)` box
/// that [`Canvas::text_w`] measures.
pub proof fn law_text_within_box(x: int, y: int, s: Seq<char>, scale: int, a: int, b: int)
    requires
        scale >= 0,
        in_text(x, y, s, scale, s.len() as int, a, b),
    ensures
        s.len() >= 1,
        in_rect(x, y, 6 * scale * (s.len() - 1) + 5 * scale, 7 * scale, a, b),
        in_rect(x, y, text_width(s.len() as int, scale), 7 * scale, a, b),
{
    lemma_in_text_box(x, y, s, scale, s.len() as int, a, b);
}

/// Law: drawing a text changes only bytes of pixels in its box (see
/// [`law_text_within_box`]), and each of them to the byte of `color`.
pub proof fn law_text_changes(
    px: Seq<u8>,
    w: int,
    x: int,
    y: int,
    s: Seq<char>,
    scale: int,
    color: Seq<u8>,
    i: int,
)
    requires
        scale >= 0,
        0 <= i < px.len(),
        paint(px, w, |a: int, b: int| in_text(x, y, s, scale, s.len() as int, a, b), color)[i]
            != px[i],
    ensures
        s.len() >= 1,
        in_rect(x, y, 6 * scale * (s.len() - 1) + 5 * scale, 7 * scale, (i / 4) % w, (i / 4) / w),
        paint(px, w, |a: int, b: int| in_text(x, y, s, scale, s.len() as int, a, b), color)[i]
            == color[i % 4],
{
    law_text_within_box(x, y, s, scale, (i / 4) % w, (i / 4) / w);
}

proof fn lemma_in_text_prefix(x: int, y: int, s: Seq<char>, t: Seq<char>, scale: int, m: int, a: int, b: int)
    requires
        0 <= m <= s.len(),
    ensures
        in_text(x, y, s + t, scale, m, a, b) == in_text(x, y, s, scale, m, a, b),
    decreases m,
{
    if m > 0 {
        lemma_in_text_prefix(x, y, s, t, scale, m - 1, a, b);
        assert((s + t)[m - 1] == s[m - 1]);
    }
}

proof fn lemma_in_text_concat(x: int, y: int, s: Seq<char>, t: Seq<char>, scale: int, n: int, a: int, b: int)
    requires
        0 <= n <= t.len(),
    ensures
        in_text(x, y, s + t, scale, s.len() + n, a, b) == (in_text(x, y, s, scale, s.len() as int, a, b)
            || in_text(x + 6 * scale * s.len(), y, t, scale, n, a, b)),
    decreases n,
{
    if n == 0 {
        lemma_in_text_prefix(x, y, s, t, scale, s.len() as int, a, b);
    } else {
        lemma_in_text_concat(x, y, s, t, scale, n - 1, a, b);
        assert((s + t)[s.len() + n - 1] == t[n - 1]);
        assert(x + 6 * scale * (s.len() + n - 1) == x + 6 * scale * s.len() + 6 * scale * (n - 1))
            by (nonlinear_arith);
    }
}

/// Law: in a glyph row, column `col` (0 the leftmost of five) is lit when
/// bit `4 - col` of the row is set: the row read as a number, divided by
/// `2^(4 - col)`, is odd.
pub proof fn law_row_has_col(bits: u8, col: int)
    requires
        0 <= col < 5,
    ensures
        row_has_col(bits, col) == ((bits as int / pow2((4 - col) as nat) as int) % 2 == 1),
{
    reveal_with_fuel(pow2, 5);
    if col == 0 {
        assert((bits & (1u8 << 4u8)) != 0 <==> (bits / 16u8) % 2u8 == 1u8) by (bit_vector);
    } else if col == 1 {
        assert((bits & (1u8 << 3u8)) != 0 <==> (bits / 8u8) % 2u8 == 1u8) by (bit_vector);
    } else if col == 2 {
        assert((bits & (1u8 << 2u8)) != 0 <==> (bits / 4u8) % 2u8 == 1u8) by (bit_vector);
    } else if col == 3 {
        assert((bits & (1u8 << 1u8)) != 0 <==> (bits / 2u8) % 2u8 == 1u8) by (bit_vector);
    } else {
        assert((bits & (1u8 << 0u8)) != 0 <==> (bits / 1u8) % 2u8 == 1u8) by (bit_vector);
    }
}

proof fn lemma_in_glyph_cells_exists(gx: int, gy: int, rows: Seq<u8>, scale: int, m: int, a: int, b: int)
    requires
        0 <= m <= 35,
    ensures
        in_glyph_cells(gx, gy, rows, scale, m, a, b) == exists|k: int|
            0 <= k < m && row_has_col(rows[k / 5], k % 5) && #[trigger] in_rect(
                gx + (k % 5) * scale,
                gy + (k / 5) * scale,
                scale,
                scale,
                a,
                b,
            ),
    decreases m,
{
    if m > 0 {
        lemma_in_glyph_cells_exists(gx, gy, rows, scale, m - 1, a, b);
        let k = m - 1;
        if in_glyph_cells(gx, gy, rows, scale, m, a, b) {
            if !in_glyph_cells(gx, gy, rows, scale, m - 1, a, b) {
                assert(in_rect(gx + (k % 5) * scale, gy + (k / 5) * scale, scale, scale, a, b));
            } else {
                let j = choose|j: int|
                    0 <= j < m - 1 && row_has_col(rows[j / 5], j % 5) && #[trigger] in_rect(
                        gx + (j % 5) * scale,
                        gy + (j / 5) * scale,
                        scale,
                        scale,
                        a,
                        b,
                    );
                assert(in_rect(gx + (j % 5) * scale, gy + (j / 5) * scale, scale, scale, a, b));
            }
        } else {
            if exists|j: int|
                0 <= j < m && row_has_col(rows[j / 5], j % 5) && #[trigger] in_rect(
                    gx + (j % 5) * scale,
                    gy + (j / 5) * scale,
                    scale,
                    scale,
                    a,
                    b,
                ) {
                let j = choose|j: int|
                    0 <= j < m && row_has_col(rows[j / 5], j % 5) && #[trigger] in_rect(
                        gx + (j % 5) * scale,
                        gy + (j / 5) * scale,
                        scale,
                        scale,
                        a,
                        b,
                    );
                if j < m - 1 {
                    assert(in_rect(gx + (j % 5) * scale, gy + (j / 5) * scale, scale, scale, a, b));
                }
            }
        }
    }
}

proof fn lemma_cell_index(d: int, s: int, c: int)
    requires
        s > 0,
        c * s <= d < c * s + s,
    ensures
        d / s == c,
{
    lemma_fundamental_div_mod_converse(d, s, c, d - c * s);
}

/// Law: one character drawn at `(x, y)` inks exactly the dots of its glyph:
/// pixel `(a, b)` is inked when it lies in the 5 by 7 grid of `scale` by
/// `scale` cells at `(x, y)`, and the glyph's row `(b - y) / scale` has its
/// column `(a - x) / scale` lit (column 0 leftmost, see [`law_row_has_col`]).
pub proof fn law_glyph_dots(x: int, y: int, ch: char, scale: int, a: int, b: int)
    requires
        scale >= 1,
    ensures
        in_text(x, y, seq![ch], scale, 1, a, b) == (x <= a < x + 5 * scale && y <= b < y + 7 * scale
            && row_has_col(glyph_rows(ch)[(b - y) / scale], (a - x) / scale)),
{
    let rows = glyph_rows(ch);
    assert(in_text(x, y, seq![ch], scale, 0, a, b) == false);
    assert(seq![ch][0] == ch);
    assert(x + 6 * scale * 0 == x);
    assert(in_text(x, y, seq![ch], scale, 1, a, b) == in_glyph_cells(x, y, rows, scale, 35, a, b));
    lemma_in_glyph_cells_exists(x, y, rows, scale, 35, a, b);
    if in_glyph_cells(x, y, rows, scale, 35, a, b) {
        let k = choose|k: int|
            0 <= k < 35 && row_has_col(rows[k / 5], k % 5) && #[trigger] in_rect(
                x + (k % 5) * scale,
                y + (k / 5) * scale,
                scale,
                scale,
                a,
                b,
            );
        let c = k % 5;
        let r = k / 5;
        assert(0 <= c < 5 && 0 <= r < 7);
        lemma_cell_index(a - x, scale, c);
        lemma_cell_index(b - y, scale, r);
        assert(c * scale + scale <= 5 * scale && r * scale + scale <= 7 * scale && 0 <= c * scale
            && 0 <= r * scale) by (nonlinear_arith)
            requires
                0 <= c < 5,
                0 <= r < 7,
                scale >= 1,
        ;
    } else if x <= a < x + 5 * scale && y <= b < y + 7 * scale {
        let c = (a - x) / scale;
        let r = (b - y) / scale;
        assert(0 <= c < 5 && c * scale <= a - x < c * scale + scale) by (nonlinear_arith)
            requires
                c == (a - x) / scale,
                0 <= a - x < 5 * scale,
                scale >= 1,
        ;
        assert(0 <= r < 7 && r * scale <= b - y < r * scale + scale) by (nonlinear_arith)
            requires
                r == (b - y) / scale,
                0 <= b - y < 7 * scale,
                scale >= 1,
        ;
        let k = r * 5 + c;
        lemma_fundamental_div_mod_converse(k, 5, r, c);
        if row_has_col(rows[r], c) {
            assert(in_rect(x + (k % 5) * scale, y + (k / 5) * scale, scale, scale, a, b));
        }
    }
}

/// Law: drawing `s + t` is drawing `s`, then `t` from where the pen stopped,
/// `6 * scale` per character of `s` further right (characters outside the
/// font advance the pen too).
pub proof fn law_text_concat(
    px: Seq<u8>,
    w: int,
    x: int,
    y: int,
    s: Seq<char>,
    t: Seq<char>,
    scale: int,
    color: Seq<u8>,
)
    requires
        color.len() == 4,
    ensures
        paint(px, w, |a: int, b: int| in_text(x, y, s + t, scale, (s + t).len() as int, a, b), color)
            == paint(
            paint(px, w, |a: int, b: int| in_text(x, y, s, scale, s.len() as int, a, b), color),
            w,
            |a: int, b: int| in_text(x + 6 * scale * s.len(), y, t, scale, t.len() as int, a, b),
            color,
        ),
{
    let first = |a: int, b: int| in_text(x, y, s, scale, s.len() as int, a, b);
    let second = |a: int, b: int| in_text(x + 6 * scale * s.len(), y, t, scale, t.len() as int, a, b);
    law_paint_union(px, w, first, second, color);
    assert forall|a: int, b: int|
        #[trigger] in_text(x, y, s + t, scale, (s + t).len() as int, a, b) == (first(a, b) || second(a, b)) by {
        lemma_in_text_concat(x, y, s, t, scale, t.len() as int, a, b);
    }
    lemma_paint_ext(
        px,
        w,
        |a: int, b: int| in_text(x, y, s + t, scale, (s + t).len() as int, a, b),
        |a: int, b: int| first(a, b) || second(a, b),
        color,
    );
}

// ---------------------------------------------------------------------------
// The canvas
// ---------------------------------------------------------------------------

impl Canvas {
    /// The pixel buffer holds `w * h` pixels of four bytes, and its size fits
    /// the `u32` arithmetic of pixel positions.
    pub open spec fn wf(&self) -> bool {
        &&& self.w * self.h * 4 <= u32::MAX
        &&& self.pixels@.len() == self.w * self.h * 4
    }

    /// A `w` by `h` canvas filled with the background colour.
    pub fn new(w: u32, h: u32) -> (c: Canvas)
        requires
            w * h * 4 <= u32::MAX,
        ensures
            c.wf(),
            c.w == w,
            c.h == h,
            c.pixels@ == blank(w as nat, h as nat),
    {
        let n = w * h;
        let mut pixels: Vec<u8> = Vec::with_capacity((n * 4) as usize);
        let mut k: u32 = 0;
        while k < n
            invariant
                k <= n,
                n == w * h,
                n * 4 <= u32::MAX,
                pixels@.len() == k * 4,
                forall|i: int| 0 <= i < pixels@.len() ==> pixels@[i] == BG@[i % 4],
            decreases n - k,
        {
            pixels.push(BG[0]);
            pixels.push(BG[1]);
            pixels.push(BG[2]);
            pixels.push(BG[3]);
            k = k + 1;
        }
        assert(w * h * 4 == n * 4);
        assert(pixels@ =~= blank(w as nat, h as nat));
        Canvas { pixels, w, h }
    }

    /// Sets the pixel at `(x, y)` to `color`; a point off the canvas changes
    /// nothing.
    pub fn set(&mut self, x: i32, y: i32, color: [u8; 4])
        requires
            old(self).wf(),
        ensures
            final(self).wf(),
            final(self).w == old(self).w,
            final(self).h == old(self).h,
            final(self).pixels@ == paint(
                old(self).pixels@,
                old(self).w as int,
                |a: int, b: int| a == x && b == y,
                color@,
            ),
    {
        let ghost px = self.pixels@;
        let ghost w = self.w as int;
        let ghost h = self.h as int;
        proof {
            if self.w > 0x7fff_ffff {
                assert(h == 0) by (nonlinear_arith)
                    requires
                        w > 0x7fff_ffff,
                        w * h * 4 <= u32::MAX,
                        h >= 0,
                ;
            }
            if self.h > 0x7fff_ffff {
                assert(w == 0) by (nonlinear_arith)
                    requires
                        h > 0x7fff_ffff,
                        w * h * 4 <= u32::MAX,
                        w >= 0,
                ;
            }
        }
        let wi = self.w as i32;
        let hi = self.h as i32;
        proof {
            let ww = self.w;
            let hh = self.h;
            assert(ww <= 0x7fff_ffff ==> ww as i32 == ww) by (bit_vector);
            assert(ww > 0x7fff_ffff ==> (ww as i32) < 0) by (bit_vector);
            assert(hh <= 0x7fff_ffff ==> hh as i32 == hh) by (bit_vector);
            assert(hh > 0x7fff_ffff ==> (hh as i32) < 0) by (bit_vector);
        }
        if x < 0 || y < 0 || x >= wi || y >= hi {
            proof {
                law_paint_outside(px, w, h, |a: int, b: int| a == x && b == y, color@);
            }
            return;
        }
        proof {
            lemma_index_in_canvas(x as int, y as int, w, h);
        }
        let p = (y as u32) * self.w + (x as u32);
        let i = (p as usize) * 4;
        self.pixels.set(i, color[0]);
        self.pixels.set(i + 1, color[1]);
        self.pixels.set(i + 2, color[2]);
        self.pixels.set(i + 3, color[3]);
        proof {
            let painted = paint(px, w, |a: int, b: int| a == x && b == y, color@);
            assert forall|j: int| 0 <= j < px.len() implies self.pixels@[j] == painted[j] by {
                lemma_div_mod_pos(j / 4, w, x as int, y as int);
            }
            assert(self.pixels@ =~= painted);
        }
    }

    /// Fills the rectangle with corner `(x, y)`, `w` wide and `h` high.
    pub fn rect(&mut self, x: i32, y: i32, w: i32, h: i32, color: [u8; 4])
        requires
            old(self).wf(),
            rect_fits(x as int, y as int, w as int, h as int),
        ensures
            final(self).wf(),
            final(self).w == old(self).w,
            final(self).h == old(self).h,
            final(self).pixels@ == paint(
                old(self).pixels@,
                old(self).w as int,
                |a: int, b: int| in_rect(x as int, y as int, w as int, h as int, a, b),
                color@,
            ),
    {
        let ghost px = self.pixels@;
        let ghost cw = self.w as int;
        let mut dy: i32 = 0;
        if w <= 0 || h <= 0 {
            proof {
                lemma_paint_ext(px, cw, |a: int, b: int| in_rect(x as int, y as int, w as int, h as int, a, b), |a: int, b: int| false, color@);
                assert(paint(px, cw, |a: int, b: int| false, color@) =~= px);
            }
            return;
        }
        proof {
            assert(paint(px, cw, |a: int, b: int| in_rect(x as int, y as int, w as int, 0, a, b), color@) =~= px);
        }
        while dy < h
            invariant
                0 <= dy <= h,
                w > 0,
                rect_fits(x as int, y as int, w as int, h as int),
                self.wf(),
                self.w == cw,
                self.h == old(self).h,
                self.pixels@ == paint(
                    px,
                    cw,
                    |a: int, b: int| in_rect(x as int, y as int, w as int, dy as int, a, b),
                    color@,
                ),
            decreases h - dy,
        {
            let mut dx: i32 = 0;
            while dx < w
                invariant
                    0 <= dx <= w,
                    0 <= dy < h,
                    rect_fits(x as int, y as int, w as int, h as int),
                    self.wf(),
                    self.w == cw,
                    self.h == old(self).h,
                    self.pixels@ == paint(
                        px,
                        cw,
                        |a: int, b: int|
                            in_rect(x as int, y as int, w as int, dy as int, a, b) || in_rect(
                                x as int,
                                y + dy,
                                dx as int,
                                1,
                                a,
                                b,
                            ),
                        color@,
                    ),
                decreases w - dx,
            {
                let ghost before = self.pixels@;
                self.set(x + dx, y + dy, color);
                proof {
                    law_paint_union(
                        px,
                        cw,
                        |a: int, b: int|
                            in_rect(x as int, y as int, w as int, dy as int, a, b) || in_rect(
                                x as int,
                                y + dy,
                                dx as int,
                                1,
                                a,
                                b,
                            ),
                        |a: int, b: int| a == x + dx && b == y + dy,
                        color@,
                    );
                    lemma_paint_ext(
                        px,
                        cw,
                        |a: int, b: int|
                            (in_rect(x as int, y as int, w as int, dy as int, a, b) || in_rect(
                                x as int,
                                y + dy,
                                dx as int,
                                1,
                                a,
                                b,
                            )) || (a == x + dx && b == y + dy),
                        |a: int, b: int|
                            in_rect(x as int, y as int, w as int, dy as int, a, b) || in_rect(
                                x as int,
                                y + dy,
                                dx + 1,
                                1,
                                a,
                                b,
                            ),
                        color@,
                    );
                }
                dx = dx + 1;
            }
            proof {
                lemma_paint_ext(
                    px,
                    cw,
                    |a: int, b: int|
                        in_rect(x as int, y as int, w as int, dy as int, a, b) || in_rect(
                            x as int,
                            y + dy,
                            w as int,
                            1,
                            a,
                            b,
                        ),
                    |a: int, b: int| in_rect(x as int, y as int, w as int, dy + 1, a, b),
                    color@,
                );
            }
            dy = dy + 1;
        }
    }

    /// Draws the characters `s` with the 5x7 font, each font dot a `scale`
    /// by `scale` square, starting at `(x, y)` and advancing `6 * scale` per
    /// character.
    pub fn draw_chars(&mut self, x: i32, y: i32, s: &Vec<char>, color: [u8; 4], scale: u32)
        requires
            old(self).wf(),
            text_fits(x as int, y as int, s@, scale as int),
        ensures
            final(self).wf(),
            final(self).w == old(self).w,
            final(self).h == old(self).h,
            final(self).pixels@ == paint(
                old(self).pixels@,
                old(self).w as int,
                |a: int, b: int| in_text(x as int, y as int, s@, scale as int, s@.len() as int, a, b),
                color@,
            ),
    {
        let ghost px = self.pixels@;
        let ghost cw = self.w as int;
        let ghost sc = scale as int;
        assert(paint(px, cw, |a: int, b: int| in_text(x as int, y as int, s@, sc, 0, a, b), color@) =~= px);
        if s.len() == 0 {
            return;
        }
        let sci = scale as i32;
        let mut cx = x;
        let mut k: usize = 0;
        while k < s.len()
            invariant
                0 <= k <= s@.len(),
                s@.len() > 0,
                sc == scale as int,
                text_fits(x as int, y as int, s@, sc),
                sci == sc,
                cx == x + 6 * sc * k,
                self.wf(),
                self.w == cw,
                self.h == old(self).h,
                self.pixels@ == paint(
                    px,
                    cw,
                    |a: int, b: int| in_text(x as int, y as int, s@, sc, k as int, a, b),
                    color@,
                ),
            decreases s@.len() - k,
        {
            proof {
                assert(6 * sc * k + 6 * sc <= 6 * sc * s@.len()) by (nonlinear_arith)
                    requires
                        k < s@.len(),
                        sc >= 0,
                ;
            }
            let ghost done_k = |a: int, b: int| in_text(x as int, y as int, s@, sc, k as int, a, b);
            match glyph(s[k]) {
                Some(rows) => {
                    let mut m: usize = 0;
                    while m < 35
                        invariant
                            0 <= m <= 35,
                            k < s@.len(),
                            rows@ == glyph_rows(s@[k as int]),
                            sc == scale as int,
                            text_fits(x as int, y as int, s@, sc),
                            sci == sc,
                            cx == x + 6 * sc * k,
                            cx + 6 * sc <= i32::MAX,
                            self.wf(),
                            self.w == cw,
                            self.h == old(self).h,
                            self.pixels@ == paint(
                                px,
                                cw,
                                |a: int, b: int|
                                    done_k(a, b) || in_glyph_cells(
                                        cx as int,
                                        y as int,
                                        rows@,
                                        sc,
                                        m as int,
                                        a,
                                        b,
                                    ),
                                color@,
                            ),
                        decreases 35 - m,
                    {
                        let row = m / 5;
                        let col = m % 5;
                        let ghost prev = |a: int, b: int|
                            done_k(a, b) || in_glyph_cells(cx as int, y as int, rows@, sc, m as int, a, b);
                        let ghost next = |a: int, b: int|
                            done_k(a, b) || in_glyph_cells(cx as int, y as int, rows@, sc, m + 1, a, b);
                        if rows[row] & (1u8 << ((4 - col) as u8)) != 0 {
                            proof {
                                assert(col * sc + sc <= 5 * sc) by (nonlinear_arith)
                                    requires
                                        col < 5,
                                        sc >= 0,
                                ;
                                assert(row * sc <= 6 * sc) by (nonlinear_arith)
                                    requires
                                        row < 7,
                                        sc >= 0,
                                ;
                                assert(row_has_col(rows@[row as int], col as int));
                                assert(row_lit(glyph_rows(s@[k as int]), row as int));
                                assert(y + row * sc + sc <= i32::MAX + 1);
                                assert(col * sc >= 0 && row * sc >= 0) by (nonlinear_arith)
                                    requires
                                        sc >= 0,
                                ;
                            }
                            let cell_x = cx + (col as i32) * sci;
                            let cell_y = y + (row as i32) * sci;
                            self.rect(cell_x, cell_y, sci, sci, color);
                            proof {
                                let cell = |a: int, b: int| in_rect(cell_x as int, cell_y as int, sc, sc, a, b);
                                law_paint_union(px, cw, prev, cell, color@);
                                lemma_paint_ext(px, cw, |a: int, b: int| prev(a, b) || cell(a, b), next, color@);
                            }
                        } else {
                            proof {
                                lemma_paint_ext(px, cw, prev, next, color@);
                            }
                        }
                        m = m + 1;
                    }
                },
                None => {},
            }
            proof {
                lemma_paint_ext(
                    px,
                    cw,
                    |a: int, b: int|
                        done_k(a, b) || in_glyph_cells(cx as int, y as int, glyph_rows(s@[k as int]), sc, 35, a, b),
                    |a: int, b: int| in_text(x as int, y as int, s@, sc, k + 1, a, b),
                    color@,
                );
            }
            cx = cx + 6 * sci;
            k = k + 1;
            proof {
                assert(6 * sc * (k - 1) + 6 * sc == 6 * sc * k) by (nonlinear_arith);
            }
        }
    }

    /// Draws the string `s` (see [`Canvas::draw_chars`]).
    pub fn text(&mut self, x: i32, y: i32, s: &str, color: [u8; 4], scale: u32)
        requires
            old(self).wf(),
            text_fits(x as int, y as int, s@, scale as int),
        ensures
            final(self).wf(),
            final(self).w == old(self).w,
            final(self).h == old(self).h,
            final(self).pixels@ == paint(
                old(self).pixels@,
                old(self).w as int,
                |a: int, b: int| in_text(x as int, y as int, s@, scale as int, s@.len() as int, a, b),
                color@,
            ),
    {
        let v = chars_of(s);
        self.draw_chars(x, y, &v, color, scale);
    }

    /// The width that `s` takes when drawn at `scale`.
    pub fn text_w(s: &str, scale: u32) -> (r: i32)
        requires
            text_width(s@.len() as int, scale as int) <= i32::MAX,
        ensures
            r == text_width(s@.len() as int, scale as int),
    {
        let n = s.unicode_len();
        Self::chars_w(n, scale)
    }

    /// The width that `n` characters take at `scale`.
    pub fn chars_w(n: usize, scale: u32) -> (r: i32)
        requires
            text_width(n as int, scale as int) <= i32::MAX,
        ensures
            r == text_width(n as int, scale as int),
    {
        if n == 0 || scale == 0 {
            assert(n * 6 * scale == 0) by (nonlinear_arith)
                requires
                    n == 0 || scale == 0,
            ;
            return 0;
        }
        proof {
            assert(n * 6 * scale >= scale && n * 6 * scale >= n * 6) by (nonlinear_arith)
                requires
                    n >= 1,
                    scale >= 1,
            ;
        }
        (n as i32) * 6 * (scale as i32)
    }

    /// Draws a bar `w` by `h` at `(x, y)`: the track in slate, then, from the
    /// left, [`bar_fill`] of its width in `color`.
    pub fn bar(&mut self, x: i32, y: i32, w: i32, h: i32, count: u32, total: u32, color: [u8; 4])
        requires
            old(self).wf(),
            rect_fits(x as int, y as int, w as int, h as int),
            rect_fits(x as int, y as int, bar_fill(w as int, count as int, total as int), h as int),
        ensures
            final(self).wf(),
            final(self).w == old(self).w,
            final(self).h == old(self).h,
            final(self).pixels@ == paint(
                paint(
                    old(self).pixels@,
                    old(self).w as int,
                    |a: int, b: int| in_rect(x as int, y as int, w as int, h as int, a, b),
                    SLATE@,
                ),
                old(self).w as int,
                |a: int, b: int|
                    in_rect(
                        x as int,
                        y as int,
                        bar_fill(w as int, count as int, total as int),
                        h as int,
                        a,
                        b,
                    ),
                color@,
            ),
    {
        self.rect(x, y, w, h, SLATE);
        let filled = fill_width(w, count, total);
        let ghost mid = self.pixels@;
        if filled > 0 {
            self.rect(x, y, filled, h, color);
        } else {
            proof {
                lemma_paint_ext(mid, self.w as int, |a: int, b: int| in_rect(x as int, y as int, filled as int, h as int, a, b), |a: int, b: int| false, color@);
                assert(paint(mid, self.w as int, |a: int, b: int| false, color@) =~= mid);
            }
        }
    }
}

/// The colour of an empty bar track (slate-600).
pub const SLATE: [u8; 4] = [71, 85, 105, 255];

} // verus!
