//! The dashboard layout: a header, a summary row, bars by status, by
//! priority and by project.
//!
//! A layout is described as a list of drawing steps ([`Draw`]) applied in
//! order to a blank canvas; [`render`] performs exactly the steps that
//! [`dashboard`] lists.
use vstd::prelude::*;
use crate::canvas::{
    Canvas, SLATE, blank, in_rect, in_text, paint, text_fits, text_width, lemma_text_box_fits,
};
use crate::fill::{bar_fill, lemma_bar_fill_le};
use crate::chars::{chars_of, decimal, decimal_chars, decimal_string, lemma_decimal_u32_len};
use crate::report::{Stats, StatsView};

verus! {

/// Separator line colour (slate-700).
pub const BORDER: [u8; 4] = [51, 65, 85, 255];

/// Main text colour (slate-200).
pub const TEXT: [u8; 4] = [226, 232, 240, 255];

/// Secondary text colour (slate-500).
pub const MUTED: [u8; 4] = [100, 116, 139, 255];

/// green-500
pub const GREEN: [u8; 4] = [34, 197, 94, 255];

/// blue-400
pub const BLUE: [u8; 4] = [96, 165, 250, 255];

/// yellow-500
pub const YELLOW: [u8; 4] = [234, 179, 8, 255];

/// red-500
pub const RED: [u8; 4] = [239, 68, 68, 255];

/// orange-500
pub const ORANGE: [u8; 4] = [249, 115, 22, 255];

/// One drawing step.
pub enum Draw {
    /// A filled rectangle: corner, width, height, colour.
    Fill(int, int, int, int, Seq<u8>),
    /// A text: corner, characters, colour, scale.
    Label(int, int, Seq<char>, Seq<u8>, int),
}

/// The pixels after drawing `d` on a canvas `w` pixels wide.
pub open spec fn apply(px: Seq<u8>, w: int, d: Draw) -> Seq<u8> {
    match d {
        Draw::Fill(x, y, fw, fh, c) => paint(px, w, |a: int, b: int| in_rect(x, y, fw, fh, a, b), c),
        Draw::Label(x, y, s, c, scale) => paint(
            px,
            w,
            |a: int, b: int| in_text(x, y, s, scale, s.len() as int, a, b),
            c,
        ),
    }
}

/// The pixels after drawing the steps `ds` in order.
pub open spec fn apply_all(px: Seq<u8>, w: int, ds: Seq<Draw>) -> Seq<u8>
    decreases ds.len(),
{
    if ds.len() == 0 {
        px
    } else {
        apply(apply_all(px, w, ds.drop_last()), w, ds.last())
    }
}

/// Drawing `a` and then `b` is drawing `a + b`.
pub proof fn lemma_apply_all_concat(px: Seq<u8>, w: int, a: Seq<Draw>, b: Seq<Draw>)
    ensures
        apply_all(px, w, a + b) == apply_all(apply_all(px, w, a), w, b),
    decreases b.len(),
{
    if b.len() == 0 {
        assert(a + b =~= a);
    } else {
        lemma_apply_all_concat(px, w, a, b.drop_last());
        assert((a + b).drop_last() =~= a + b.drop_last());
    }
}

proof fn lemma_apply_push(px: Seq<u8>, w: int, ds: Seq<Draw>, d: Draw)
    ensures
        apply_all(px, w, ds.push(d)) == apply(apply_all(px, w, ds), w, d),
{
    assert(ds.push(d).drop_last() =~= ds);
}

pub open spec fn imax(a: int, b: int) -> int {
    if a >= b {
        a
    } else {
        b
    }
}

pub open spec fn imin(a: int, b: int) -> int {
    if a <= b {
        a
    } else {
        b
    }
}

// ---------------------------------------------------------------------------
// Drawing steps with the canvas
// ---------------------------------------------------------------------------

/// Draws `s` as a [`Draw::Label`] step.
fn put_label(c: &mut Canvas, x: i32, y: i32, s: &Vec<char>, color: [u8; 4], scale: u32)
    requires
        old(c).wf(),
        text_fits(x as int, y as int, s@, scale as int),
    ensures
        final(c).wf(),
        final(c).w == old(c).w,
        final(c).h == old(c).h,
        final(c).pixels@ == apply(
            old(c).pixels@,
            old(c).w as int,
            Draw::Label(x as int, y as int, s@, color@, scale as int),
        ),
{
    c.draw_chars(x, y, s, color, scale);
}

// ---------------------------------------------------------------------------
// A bar row
// ---------------------------------------------------------------------------

/// The `i32` arithmetic of [`stat_bar`] does not overflow: the scale is at
/// least 1 (the label is cut by the width of a character), and the label,
/// the bar, the count and the next row's `y` lie in the `i32` range.
pub open spec fn stat_bar_fits(x: int, y: int, w: int, count: u32, total: u32, ts: int) -> bool {
    &&& 1 <= ts
    &&& 24 * ts <= i32::MAX
    &&& text_width(decimal(count as nat).len() as int, ts) <= i32::MAX
    &&& w - stat_bar_width(w) - 6 * ts * 4 - 8 >= i32::MIN
    &&& x + stat_label_width(w, ts) + 4 + stat_bar_width(w) <= i32::MAX + 1
    &&& x + stat_label_width(w, ts) + 4 + bar_fill(stat_bar_width(w), count as int, total as int)
        <= i32::MAX + 1
    &&& x + w <= i32::MAX
    &&& x + w - text_width(decimal(count as nat).len() as int, ts) >= i32::MIN
    &&& y + 7 * ts + 4 <= i32::MAX
}

/// The width of the bar of a row `w` wide: a fifteenth, at least 4.
pub open spec fn stat_bar_width(w: int) -> int {
    if w >= 60 {
        w / 15
    } else {
        4
    }
}

/// The width left for the label of a row `w` wide, at least one character.
pub open spec fn stat_label_width(w: int, ts: int) -> int {
    imax(w - stat_bar_width(w) - 6 * ts * 4 - 8, 6 * ts)
}

/// The steps of a bar row: the label cut to the characters that fit, the
/// bar track, the filled share `count / total` of the bar (vertically
/// centred on the text), and the count right-aligned at `x + w`.
pub open spec fn stat_bar_draws(
    x: int,
    y: int,
    w: int,
    label: Seq<char>,
    count: u32,
    total: u32,
    color: Seq<u8>,
    ts: int,
) -> Seq<Draw> {
    let char_w = 6 * ts;
    let text_h = 7 * ts;
    let bar_w = stat_bar_width(w);
    let label_w = stat_label_width(w, ts);
    let max_chars = imax(label_w / char_w, 1);
    let shown = label.take(imin(max_chars, label.len() as int));
    let bar_h = imax(text_h / 2, 3);
    let bar_y = y + (text_h - bar_h) / 2;
    let bx = x + label_w + 4;
    let cs = decimal(count as nat);
    seq![
        Draw::Label(x, y, shown, TEXT@, ts),
        Draw::Fill(bx, bar_y, bar_w, bar_h, SLATE@),
        Draw::Fill(bx, bar_y, bar_fill(bar_w, count as int, total as int), bar_h, color),
        Draw::Label(x + w - text_width(cs.len() as int, ts), y, cs, MUTED@, ts),
    ]
}

/// Law: a bar row draws, in order, the start of the label that fits, the
/// bar's track and its fill, and the count.
///
/// - The label is drawn in the text colour at `(x, y)`. It is the longest
///   start of `label` whose characters, `6 * ts` wide each, fit in the label
///   width, and at least one character.
/// - The track and the fill share their left edge, 4 pixels after the label
///   width, and their rows, which are centred on the line of text. The track
///   is the bar width wide and slate; the fill is `bar_fill` of the bar width
///   wide and in `color`.
/// - The count is written in decimal in the muted colour on the same line,
///   and ends at `x + w`.
pub proof fn law_stat_bar_layout(
    x: int,
    y: int,
    w: int,
    label: Seq<char>,
    count: u32,
    total: u32,
    color: Seq<u8>,
    ts: int,
)
    requires
        ts >= 1,
    ensures
        stat_bar_draws(x, y, w, label, count, total, color, ts).len() == 4,
        stat_bar_draws(x, y, w, label, count, total, color, ts)[0] matches Draw::Label(
            lx,
            ly,
            shown,
            c,
            sc,
        ) && lx == x && ly == y && c == TEXT@ && sc == ts && shown.len() <= label.len() && shown
            == label.take(shown.len() as int) && (label.len() > 0 ==> shown.len() >= 1) && shown.len()
            * (6 * ts) <= stat_label_width(w, ts) && (shown.len() < label.len() ==> (shown.len() + 1)
            * (6 * ts) > stat_label_width(w, ts)),
        stat_bar_draws(x, y, w, label, count, total, color, ts)[1] matches Draw::Fill(
            bx,
            by,
            bw,
            bh,
            c,
        ) && bx == x + stat_label_width(w, ts) + 4 && bw == stat_bar_width(w) && c == SLATE@ && bh
            >= 3 && y <= by && by + bh <= y + 7 * ts && 0 <= (y + 7 * ts - (by + bh)) - (by - y) <= 1,
        stat_bar_draws(x, y, w, label, count, total, color, ts)[2] == (match stat_bar_draws(
            x,
            y,
            w,
            label,
            count,
            total,
            color,
            ts,
        )[1] {
            Draw::Fill(bx, by, bw, bh, c) => Draw::Fill(
                bx,
                by,
                bar_fill(bw, count as int, total as int),
                bh,
                color,
            ),
            Draw::Label(a, b, t, c, sc) => Draw::Label(a, b, t, c, sc),
        }),
        stat_bar_draws(x, y, w, label, count, total, color, ts)[3] matches Draw::Label(
            cx,
            cy,
            cs,
            c,
            sc,
        ) && cs == decimal(count as nat) && cx + text_width(cs.len() as int, ts) == x + w && cy == y
            && c == MUTED@ && sc == ts,
{
    let cw = 6 * ts;
    let lw = stat_label_width(w, ts);
    let q = lw / cw;
    assert(lw >= cw);
    assert(q * cw <= lw && lw < (q + 1) * cw && q >= 1) by (nonlinear_arith)
        requires
            cw >= 6,
            lw >= cw,
            q == lw / cw,
    ;
    let n = imin(imax(q, 1), label.len() as int);
    assert(n * cw <= lw) by (nonlinear_arith)
        requires
            n <= q,
            q * cw <= lw,
            cw >= 0,
    ;
    let text_h = 7 * ts;
    let bar_h = imax(text_h / 2, 3);
    assert(text_h / 2 >= 3);
    assert(text_width(decimal(count as nat).len() as int, ts) == decimal(count as nat).len() * 6 * ts);
}

/// Draws a row: `label`, a bar showing `count` out of `total`, and `count`.
/// Returns the `y` of the next row.
pub fn stat_bar(
    c: &mut Canvas,
    x: i32,
    y: i32,
    w: i32,
    label: &str,
    count: u32,
    total: u32,
    color: [u8; 4],
    ts: u32,
) -> (next_y: i32)
    requires
        old(c).wf(),
        stat_bar_fits(x as int, y as int, w as int, count, total, ts as int),
    ensures
        final(c).wf(),
        final(c).w == old(c).w,
        final(c).h == old(c).h,
        final(c).pixels@ == apply_all(
            old(c).pixels@,
            old(c).w as int,
            stat_bar_draws(x as int, y as int, w as int, label@, count, total, color@, ts as int),
        ),
        next_y == y + 7 * ts + 4,
{
    let ghost px = c.pixels@;
    let ghost cw = c.w as int;
    let tsi = ts as i32;
    let char_w = 6 * tsi;
    let text_h = 7 * tsi;

    // The bar is a short indicator, not the focus.
    let bar_w = if w >= 60 {
        w / 15
    } else {
        4
    };
    let count_w = char_w * 4;
    let spare = w - bar_w - count_w - 8;
    let label_w = if spare >= char_w {
        spare
    } else {
        char_w
    };
    let q = label_w / char_w;
    let max_chars: usize = if q >= 1 {
        q as usize
    } else {
        1
    };
    let chars = chars_of(label);
    let n = if max_chars <= chars.len() {
        max_chars
    } else {
        chars.len()
    };
    let mut shown: Vec<char> = Vec::new();
    let mut i: usize = 0;
    while i < n
        invariant
            0 <= i <= n <= chars@.len(),
            shown@ == chars@.take(i as int),
        decreases n - i,
    {
        shown.push(chars[i]);
        i = i + 1;
        assert(shown@ =~= chars@.take(i as int));
    }
    proof {
        assert(n * char_w <= label_w) by (nonlinear_arith)
            requires
                n <= q || n == 1,
                q == label_w / char_w,
                char_w >= 6,
                label_w >= char_w,
        ;
        assert(n * char_w == 6 * ts * n) by (nonlinear_arith)
            requires
                char_w == 6 * ts,
        ;
        lemma_text_box_fits(x as int, y as int, shown@, ts as int);
    }
    let ghost d1 = Draw::Label(x as int, y as int, shown@, TEXT@, ts as int);
    put_label(c, x, y, &shown, TEXT, ts);

    // The bar, vertically centred on the text.
    let half = text_h / 2;
    let bar_h = if half >= 3 {
        half
    } else {
        3
    };
    let bar_y = y + (text_h - bar_h) / 2;
    let bx = x + label_w + 4;
    let ghost p1 = c.pixels@;
    c.bar(bx, bar_y, bar_w, bar_h, count, total, color);
    let ghost p2 = c.pixels@;
    let ghost d2 = Draw::Fill(bx as int, bar_y as int, bar_w as int, bar_h as int, SLATE@);
    let ghost d3 = Draw::Fill(
        bx as int,
        bar_y as int,
        bar_fill(bar_w as int, count as int, total as int),
        bar_h as int,
        color@,
    );

    // The count, right-aligned.
    let cs = decimal_chars(count);
    proof {
        assert(cs@.len() * 6 * ts == 6 * ts * cs@.len()) by (nonlinear_arith);
        lemma_text_box_fits((x + w - cs@.len() * 6 * ts) as int, y as int, cs@, ts as int);
    }
    let cs_w = Canvas::chars_w(cs.len(), ts);
    let ghost d4 = Draw::Label((x + w - cs_w) as int, y as int, cs@, MUTED@, ts as int);
    put_label(c, x + w - cs_w, y, &cs, MUTED, ts);
    proof {
        assert(p1 == apply(px, cw, d1));
        assert(p2 == apply(apply(p1, cw, d2), cw, d3));
        assert(c.pixels@ == apply(p2, cw, d4));
        lemma_apply_push(px, cw, Seq::empty(), d1);
        assert(Seq::<Draw>::empty().push(d1) =~= seq![d1]);
        let ds = stat_bar_draws(x as int, y as int, w as int, label@, count, total, color@, ts as int);
        assert(ds =~= seq![d1, d2, d3, d4]);
        lemma_apply_push(px, cw, seq![d1], d2);
        lemma_apply_push(px, cw, seq![d1, d2], d3);
        lemma_apply_push(px, cw, seq![d1, d2, d3], d4);
        assert(seq![d1].push(d2) =~= seq![d1, d2]);
        assert(seq![d1, d2].push(d3) =~= seq![d1, d2, d3]);
        assert(seq![d1, d2, d3].push(d4) =~= seq![d1, d2, d3, d4]);
        assert(seq![d1].drop_last() =~= Seq::<Draw>::empty());
    }
    y + text_h + 4
}

// ---------------------------------------------------------------------------
// A summary cell
// ---------------------------------------------------------------------------

/// The left edge of a text `tw` wide centred in a column `w` wide at `x`; a
/// text wider than the column starts at the column's edge.
pub open spec fn center_x(x: int, w: int, tw: int) -> int {
    if tw <= w {
        x + (w - tw) / 2
    } else {
        x
    }
}

/// The `i32` arithmetic of [`summary_cell`] does not overflow: both texts
/// are measurable and fit where they are centred, and the label's line lies
/// in the `i32` range.
pub open spec fn summary_cell_fits(
    x: int,
    y: int,
    w: int,
    val: Seq<char>,
    label: Seq<char>,
    scale: int,
    label_scale: int,
) -> bool {
    let vw = text_width(val.len() as int, scale);
    let lw = text_width(label.len() as int, label_scale);
    let ly = y + 7 * scale + 3;
    &&& vw <= i32::MAX
    &&& lw <= i32::MAX
    &&& 7 * scale <= i32::MAX
    &&& ly <= i32::MAX
    &&& center_x(x, w, vw) <= i32::MAX
    &&& center_x(x, w, lw) <= i32::MAX
    &&& text_fits(center_x(x, w, vw), y, val, scale)
    &&& text_fits(center_x(x, w, lw), ly, label, label_scale)
}

/// The steps of a summary cell: the value, and under it the label, each
/// centred in the column.
pub open spec fn summary_cell_draws(
    x: int,
    y: int,
    w: int,
    val: Seq<char>,
    label: Seq<char>,
    color: Seq<u8>,
    scale: int,
    label_scale: int,
) -> Seq<Draw> {
    seq![
        Draw::Label(center_x(x, w, text_width(val.len() as int, scale)), y, val, color, scale),
        Draw::Label(
            center_x(x, w, text_width(label.len() as int, label_scale)),
            y + 7 * scale + 3,
            label,
            MUTED@,
            label_scale,
        ),
    ]
}

/// Draws a value and its label centred in a column `w` wide at `x`.
pub fn summary_cell(
    c: &mut Canvas,
    x: i32,
    y: i32,
    w: i32,
    val: &str,
    label: &str,
    color: [u8; 4],
    scale: u32,
    label_scale: u32,
)
    requires
        old(c).wf(),
        summary_cell_fits(
            x as int,
            y as int,
            w as int,
            val@,
            label@,
            scale as int,
            label_scale as int,
        ),
    ensures
        final(c).wf(),
        final(c).w == old(c).w,
        final(c).h == old(c).h,
        final(c).pixels@ == apply_all(
            old(c).pixels@,
            old(c).w as int,
            summary_cell_draws(
                x as int,
                y as int,
                w as int,
                val@,
                label@,
                color@,
                scale as int,
                label_scale as int,
            ),
        ),
{
    let ghost px = c.pixels@;
    let ghost cw = c.w as int;
    proof {
        assert(val@.len() * 6 * scale == 6 * scale * val@.len()) by (nonlinear_arith);
        assert(label@.len() * 6 * label_scale == 6 * label_scale * label@.len())
            by (nonlinear_arith);
        assert(val@.len() >= 1 ==> 6 * scale <= val@.len() * 6 * scale) by (nonlinear_arith)
            requires
                scale >= 0,
        ;
        assert(label@.len() >= 1 ==> 6 * label_scale <= label@.len() * 6 * label_scale)
            by (nonlinear_arith)
            requires
                label_scale >= 0,
        ;
    }
    // A text wider than the column starts at the column's edge.
    let vw = Canvas::text_w(val, scale);
    let vx = if vw <= w {
        x + (w - vw) / 2
    } else {
        x
    };
    let ghost d1 = Draw::Label(vx as int, y as int, val@, color@, scale as int);
    c.text(vx, y, val, color, scale);
    let ghost p1 = c.pixels@;
    assert(p1 == apply(px, cw, d1));
    let lw = Canvas::text_w(label, label_scale);
    let ly = y + 7 * (scale as i32) + 3;
    let lx = if lw <= w {
        x + (w - lw) / 2
    } else {
        x
    };
    let ghost d2 = Draw::Label(lx as int, ly as int, label@, MUTED@, label_scale as int);
    c.text(lx, ly, label, MUTED, label_scale);
    proof {
        assert(c.pixels@ == apply(p1, cw, d2));
        lemma_apply_push(px, cw, Seq::empty(), d1);
        assert(Seq::<Draw>::empty().push(d1) =~= seq![d1]);
        assert(summary_cell_draws(
            x as int,
            y as int,
            w as int,
            val@,
            label@,
            color@,
            scale as int,
            label_scale as int,
        ) =~= seq![d1, d2]);
        lemma_apply_push(px, cw, seq![d1], d2);
        assert(seq![d1].push(d2) =~= seq![d1, d2]);
        assert(seq![d1].drop_last() =~= Seq::<Draw>::empty());
    }
}

// ---------------------------------------------------------------------------
// The dashboard
// ---------------------------------------------------------------------------

/// `w` read as an `i32` (`w as i32`).
pub open spec fn wrap_i32(w: u32) -> int {
    if w <= 0x7fff_ffff {
        w as int
    } else {
        w - 0x1_0000_0000
    }
}

/// The margin: a twentieth of the width, between 4 and 20.
pub open spec fn pad_for(wi: int) -> int {
    if wi < 80 {
        4
    } else if wi >= 400 {
        20
    } else {
        wi / 20
    }
}

/// The width inside the margins, at least 1.
pub open spec fn inner_width(w: u32) -> int {
    imax(wrap_i32(w) - pad_for(wrap_i32(w)) * 2, 1)
}

/// The text scale grows with the available width.
pub open spec fn text_scale(iw: int) -> int {
    if iw >= 900 {
        4
    } else if iw >= 500 {
        3
    } else if iw >= 200 {
        2
    } else {
        1
    }
}

/// The scale of the summary values for a column `col_w` wide.
pub open spec fn value_scale(col_w: int) -> int {
    if col_w >= 80 {
        3
    } else if col_w >= 48 {
        2
    } else {
        1
    }
}

/// The height of a line of text at scale `ts`, spacing included.
pub open spec fn line_height(ts: int) -> int {
    7 * ts + 4
}

/// The header: the title and a separator line under it.
pub open spec fn header_draws(pad: int, iw: int, ts: int) -> Seq<Draw> {
    let title = if iw >= 6 * ts * 10 {
        "TASK STATS"@
    } else {
        "STATS"@
    };
    seq![
        Draw::Label(pad, pad, title, MUTED@, ts),
        Draw::Fill(pad, pad + line_height(ts), iw, 1, BORDER@),
    ]
}

/// The summary: three columns (total, overdue, projects) when the width
/// allows, else one line `N tasks  M overdue`. Overdue shows red when some
/// task is overdue, green otherwise.
pub open spec fn summary_draws(pad: int, y: int, iw: int, ts: int, st: StatsView) -> Seq<Draw> {
    if iw >= 90 {
        let col_w = iw / 3;
        let vs = value_scale(col_w);
        let ov_color = if st.overdue > 0 {
            RED@
        } else {
            GREEN@
        };
        summary_cell_draws(pad, y, col_w, decimal(st.total as nat), "total"@, TEXT@, vs, ts)
            + summary_cell_draws(
            pad + col_w,
            y,
            col_w,
            decimal(st.overdue as nat),
            "overdue"@,
            ov_color,
            vs,
            ts,
        ) + summary_cell_draws(
            pad + col_w * 2,
            y,
            col_w,
            decimal(st.projects as nat),
            "projects"@,
            BLUE@,
            vs,
            ts,
        )
    } else {
        seq![
            Draw::Label(
                pad,
                y,
                decimal(st.total as nat) + " tasks  "@ + decimal(st.overdue as nat) + " overdue"@,
                TEXT@,
                ts,
            ),
        ]
    }
}

/// The `y` below the summary.
pub open spec fn summary_end(y: int, iw: int, ts: int) -> int {
    if iw >= 90 {
        y + 7 * value_scale(iw / 3) + line_height(ts) + 6
    } else {
        y + line_height(ts) + 4
    }
}

/// A section title at `y` when a line still fits above `h`; with the `y`
/// after it.
pub open spec fn titled(pad: int, y: int, h: int, ts: int, title: Seq<char>) -> (Seq<Draw>, int) {
    if y + line_height(ts) < h {
        (seq![Draw::Label(pad, y, title, MUTED@, ts)], y + line_height(ts))
    } else {
        (Seq::empty(), y)
    }
}

/// A bar row at `y` when `y` is still above `h`; with the `y` after it.
pub open spec fn bar_row(
    pad: int,
    y: int,
    iw: int,
    h: int,
    ts: int,
    label: Seq<char>,
    count: u32,
    total: u32,
    color: Seq<u8>,
) -> (Seq<Draw>, int) {
    if y < h {
        (stat_bar_draws(pad, y, iw, label, count, total, color, ts), y + 7 * ts + 4)
    } else {
        (Seq::empty(), y)
    }
}

/// A titled section of four bar rows that share a total; with the `y`
/// after it.
pub open spec fn four_rows(
    pad: int,
    y: int,
    iw: int,
    h: int,
    ts: int,
    title: Seq<char>,
    labels: Seq<Seq<char>>,
    counts: Seq<u32>,
    colors: Seq<Seq<u8>>,
) -> (Seq<Draw>, int) {
    let t = titled(pad, y, h, ts, title);
    let sum = counts[0] + counts[1] + counts[2] + counts[3];
    let total = imax(sum, 1) as u32;
    let r1 = bar_row(pad, t.1, iw, h, ts, labels[0], counts[0], total, colors[0]);
    let r2 = bar_row(pad, r1.1, iw, h, ts, labels[1], counts[1], total, colors[1]);
    let r3 = bar_row(pad, r2.1, iw, h, ts, labels[2], counts[2], total, colors[2]);
    let r4 = bar_row(pad, r3.1, iw, h, ts, labels[3], counts[3], total, colors[3]);
    (t.0 + r1.0 + r2.0 + r3.0 + r4.0, r4.1 + 4)
}

/// The section of bars by status.
pub open spec fn status_section(pad: int, y: int, iw: int, h: int, ts: int, st: StatsView) -> (
    Seq<Draw>,
    int,
) {
    four_rows(
        pad,
        y,
        iw,
        h,
        ts,
        "Status"@,
        seq!["Todo"@, "In Progress"@, "Done"@, "Cancelled"@],
        seq![st.todo, st.in_prog, st.done, st.cancelled],
        seq![BLUE@, YELLOW@, GREEN@, SLATE@],
    )
}

/// The section of bars by priority, drawn only when five lines still fit.
pub open spec fn priority_section(pad: int, y: int, iw: int, h: int, ts: int, st: StatsView) -> (
    Seq<Draw>,
    int,
) {
    if y + line_height(ts) * 5 < h {
        four_rows(
            pad,
            y,
            iw,
            h,
            ts,
            "Priority"@,
            seq!["Low"@, "Medium"@, "High"@, "Urgent"@],
            seq![st.low, st.medium, st.high, st.urgent],
            seq![SLATE@, BLUE@, ORANGE@, RED@],
        )
    } else {
        (Seq::empty(), y)
    }
}

/// The largest project count (0 for none).
pub open spec fn max_count(ps: Seq<(Seq<char>, u32)>) -> u32
    decreases ps.len(),
{
    if ps.len() == 0 {
        0
    } else if max_count(ps.drop_last()) >= ps.last().1 {
        max_count(ps.drop_last())
    } else {
        ps.last().1
    }
}

/// Bar rows for the projects, in order, as long as a line fits above `h`;
/// each bar shows the project's share of the largest count `pm`.
pub open spec fn project_rows(
    pad: int,
    y: int,
    iw: int,
    h: int,
    ts: int,
    ps: Seq<(Seq<char>, u32)>,
    pm: u32,
) -> Seq<Draw>
    decreases ps.len(),
{
    if ps.len() == 0 || y + line_height(ts) > h {
        Seq::empty()
    } else {
        stat_bar_draws(pad, y, iw, ps[0].0, ps[0].1, pm, BLUE@, ts) + project_rows(
            pad,
            y + 7 * ts + 4,
            iw,
            h,
            ts,
            ps.drop_first(),
            pm,
        )
    }
}

/// The section of bars by project, drawn when there are projects and two
/// lines still fit.
pub open spec fn projects_section(
    pad: int,
    y: int,
    iw: int,
    h: int,
    ts: int,
    ps: Seq<(Seq<char>, u32)>,
) -> Seq<Draw> {
    if ps.len() > 0 && y + line_height(ts) * 2 < h {
        let t = titled(pad, y, h, ts, "Projects"@);
        let pm = if max_count(ps) >= 1 {
            max_count(ps)
        } else {
            1
        };
        t.0 + project_rows(pad, t.1, iw, h, ts, ps, pm)
    } else {
        Seq::empty()
    }
}

/// The `y` at which the sections start on a canvas `w` wide.
pub open spec fn sections_y(w: u32) -> int {
    let wi = wrap_i32(w);
    let pad = pad_for(wi);
    let iw = inner_width(w);
    let ts = text_scale(iw);
    summary_end(pad + line_height(ts) + 6, iw, ts)
}

/// The sections are drawn: the canvas is wide enough and the summary ends
/// above the bottom.
pub open spec fn shows_sections(w: u32, h: u32) -> bool {
    inner_width(w) >= 50 && sections_y(w) < h
}

/// The priority section is drawn.
pub open spec fn shows_priority(w: u32, h: u32) -> bool {
    let wi = wrap_i32(w);
    let pad = pad_for(wi);
    let iw = inner_width(w);
    let ts = text_scale(iw);
    shows_sections(w, h) && status_section(pad, sections_y(w), iw, h as int, ts, StatsView::empty()).1
        + line_height(ts) * 5 < h
}

/// The steps that draw the dashboard for `st` on a `w` by `h` canvas.
pub open spec fn dashboard(w: u32, h: u32, st: StatsView) -> Seq<Draw> {
    let wi = wrap_i32(w);
    let pad = pad_for(wi);
    let iw = inner_width(w);
    if iw < 30 {
        Seq::empty()
    } else {
        let ts = text_scale(iw);
        let y1 = pad + line_height(ts) + 6;
        let head = header_draws(pad, iw, ts) + summary_draws(pad, y1, iw, ts, st);
        let y2 = summary_end(y1, iw, ts);
        let hi = h as int;
        if iw < 50 || y2 >= hi {
            head
        } else {
            let s1 = status_section(pad, y2, iw, hi, ts, st);
            let s2 = priority_section(pad, s1.1, iw, hi, ts, st);
            head + s1.0 + s2.0 + projects_section(pad, s2.1, iw, hi, ts, st.by_project)
        }
    }
}

/// The `i32` and `u32` arithmetic of [`render`] does not overflow: the
/// canvas size fits, the margins fit, and the totals of the status and the
/// priority counts fit where those sections are drawn.
pub open spec fn render_fits(w: u32, h: u32, st: StatsView) -> bool {
    &&& w * h * 4 <= u32::MAX
    &&& wrap_i32(w) - pad_for(wrap_i32(w)) * 2 >= i32::MIN
    &&& shows_sections(w, h) ==> st.todo + st.in_prog + st.done + st.cancelled <= u32::MAX
    &&& shows_priority(w, h) ==> st.low + st.medium + st.high + st.urgent <= u32::MAX
}

/// Room for the sections: the margin and width stay far enough from the
/// `i32` limit for the widest row and for a bar fill, which can exceed its
/// bar (see [`lemma_bar_fill_le`]), and so does the canvas height.
pub open spec fn room(pad: int, iw: int, hi: int, ts: int) -> bool {
    &&& 0 <= pad
    &&& 0 <= iw
    &&& 1 <= ts <= 4
    &&& pad + iw + 240 <= 0x6000_0000
    &&& 0 <= hi <= 0x200_0000
}

proof fn lemma_small_text_width(n: int, k: int)
    requires
        0 <= n <= 10,
        1 <= k <= 4,
    ensures
        0 <= text_width(n, k) <= 240,
        text_width(n, k) == 6 * k * n,
{
    assert(0 <= n * 6 * k <= 240) by (nonlinear_arith)
        requires
            0 <= n <= 10,
            1 <= k <= 4,
    ;
    assert(n * 6 * k == 6 * k * n) by (nonlinear_arith);
}

/// A bar row of the dashboard fits the `i32` arithmetic.
proof fn lemma_row_fits(pad: int, y: int, iw: int, hi: int, count: u32, total: u32, ts: int)
    requires
        room(pad, iw, hi, ts),
        0 <= y,
        y + 8 * ts + 4 <= i32::MAX,
    ensures
        stat_bar_fits(pad, y, iw, count, total, ts),
{
    lemma_decimal_u32_len(count);
    lemma_small_text_width(decimal(count as nat).len() as int, ts);
    let bw = stat_bar_width(iw);
    lemma_bar_fill_le(bw, count as int, total as int);
    assert(bw <= iw / 15 + 4);
    assert(iw / 15 * 15 <= iw) by (nonlinear_arith)
        requires
            iw >= 0,
    ;
}

/// A summary cell of the dashboard fits the `i32` arithmetic.
proof fn lemma_cell_fits(x: int, y: int, w: int, val: Seq<char>, label: Seq<char>, vs: int, ts: int)
    requires
        0 <= x,
        0 <= y <= 200,
        0 <= w,
        x + w <= i32::MAX,
        w >= 240 || x <= 1000,
        val.len() <= 10,
        label.len() <= 10,
        1 <= vs <= 3,
        1 <= ts <= 4,
    ensures
        summary_cell_fits(x, y, w, val, label, vs, ts),
{
    lemma_small_text_width(val.len() as int, vs);
    lemma_small_text_width(label.len() as int, ts);
    let vw = text_width(val.len() as int, vs);
    let lw = text_width(label.len() as int, ts);
    lemma_text_box_fits(center_x(x, w, vw), y, val, vs);
    lemma_text_box_fits(center_x(x, w, lw), y + 7 * vs + 3, label, ts);
}

/// Draws a section title when a line still fits (see [`titled`]).
fn title_row(c: &mut Canvas, pad: i32, y: i32, hi: i32, ts: u32, title: &str) -> (next_y: i32)
    requires
        old(c).wf(),
        room(pad as int, 0, hi as int, ts as int),
        0 <= y <= hi + 40,
        title@.len() <= 10,
    ensures
        final(c).wf(),
        final(c).w == old(c).w,
        final(c).h == old(c).h,
        final(c).pixels@ == apply_all(
            old(c).pixels@,
            old(c).w as int,
            titled(pad as int, y as int, hi as int, ts as int, title@).0,
        ),
        next_y == titled(pad as int, y as int, hi as int, ts as int, title@).1,
{
    let ghost px = c.pixels@;
    let lh = 7 * (ts as i32) + 4;
    if y + lh < hi {
        proof {
            assert(6 * ts * title@.len() <= 240) by (nonlinear_arith)
                requires
                    ts <= 4,
                    title@.len() <= 10,
            ;
            lemma_text_box_fits(pad as int, y as int, title@, ts as int);
        }
        c.text(pad, y, title, MUTED, ts);
        proof {
            let d = Draw::Label(pad as int, y as int, title@, MUTED@, ts as int);
            lemma_apply_push(px, c.w as int, Seq::empty(), d);
            assert(Seq::<Draw>::empty().push(d) =~= seq![d]);
        }
        y + lh
    } else {
        y
    }
}

/// Draws a bar row when `y` is still above the bottom (see [`bar_row`]).
fn bar_row_at(
    c: &mut Canvas,
    pad: i32,
    y: i32,
    iw: i32,
    hi: i32,
    ts: u32,
    label: &str,
    count: u32,
    total: u32,
    color: [u8; 4],
) -> (next_y: i32)
    requires
        old(c).wf(),
        room(pad as int, iw as int, hi as int, ts as int),
        0 <= y <= hi + 40,
    ensures
        final(c).wf(),
        final(c).w == old(c).w,
        final(c).h == old(c).h,
        final(c).pixels@ == apply_all(
            old(c).pixels@,
            old(c).w as int,
            bar_row(
                pad as int,
                y as int,
                iw as int,
                hi as int,
                ts as int,
                label@,
                count,
                total,
                color@,
            ).0,
        ),
        next_y == bar_row(
            pad as int,
            y as int,
            iw as int,
            hi as int,
            ts as int,
            label@,
            count,
            total,
            color@,
        ).1,
{
    if y < hi {
        proof {
            lemma_row_fits(pad as int, y as int, iw as int, hi as int, count, total, ts as int);
        }
        stat_bar(c, pad, y, iw, label, count, total, color, ts)
    } else {
        y
    }
}

/// Draws the status section (see [`status_section`]).
fn status_rows(c: &mut Canvas, pad: i32, y: i32, iw: i32, hi: i32, ts: u32, stats: &Stats) -> (next_y: i32)
    requires
        old(c).wf(),
        room(pad as int, iw as int, hi as int, ts as int),
        0 <= y < hi,
        stats.todo + stats.in_prog + stats.done + stats.cancelled <= u32::MAX,
    ensures
        final(c).wf(),
        final(c).w == old(c).w,
        final(c).h == old(c).h,
        final(c).pixels@ == apply_all(
            old(c).pixels@,
            old(c).w as int,
            status_section(pad as int, y as int, iw as int, hi as int, ts as int, stats@).0,
        ),
        next_y == status_section(pad as int, y as int, iw as int, hi as int, ts as int, stats@).1,
        next_y <= hi + 40,
{
    let ghost px = c.pixels@;
    let ghost cw = c.w as int;
    proof {
        reveal_strlit("Status");
    }
    let y0 = title_row(c, pad, y, hi, ts, "Status");
    let ghost p0 = c.pixels@;
    let sum = stats.todo + stats.in_prog + stats.done + stats.cancelled;
    let total = if sum >= 1 {
        sum
    } else {
        1
    };
    let y1 = bar_row_at(c, pad, y0, iw, hi, ts, "Todo", stats.todo, total, BLUE);
    let ghost p1 = c.pixels@;
    let y2 = bar_row_at(c, pad, y1, iw, hi, ts, "In Progress", stats.in_prog, total, YELLOW);
    let ghost p2 = c.pixels@;
    let y3 = bar_row_at(c, pad, y2, iw, hi, ts, "Done", stats.done, total, GREEN);
    let ghost p3 = c.pixels@;
    let y4 = bar_row_at(c, pad, y3, iw, hi, ts, "Cancelled", stats.cancelled, total, SLATE);
    proof {
        let t = titled(pad as int, y as int, hi as int, ts as int, "Status"@);
        let r1 = bar_row(pad as int, y0 as int, iw as int, hi as int, ts as int, "Todo"@, stats.todo, total, BLUE@);
        let r2 = bar_row(pad as int, y1 as int, iw as int, hi as int, ts as int, "In Progress"@, stats.in_prog, total, YELLOW@);
        let r3 = bar_row(pad as int, y2 as int, iw as int, hi as int, ts as int, "Done"@, stats.done, total, GREEN@);
        let r4 = bar_row(pad as int, y3 as int, iw as int, hi as int, ts as int, "Cancelled"@, stats.cancelled, total, SLATE@);
        lemma_apply_all_concat(px, cw, t.0, r1.0);
        lemma_apply_all_concat(px, cw, t.0 + r1.0, r2.0);
        lemma_apply_all_concat(px, cw, t.0 + r1.0 + r2.0, r3.0);
        lemma_apply_all_concat(px, cw, t.0 + r1.0 + r2.0 + r3.0, r4.0);
        assert(stats@.todo == stats.todo);
    }
    y4 + 4
}

/// Draws the priority section (see [`priority_section`]).
fn priority_rows(c: &mut Canvas, pad: i32, y: i32, iw: i32, hi: i32, ts: u32, stats: &Stats) -> (next_y: i32)
    requires
        old(c).wf(),
        room(pad as int, iw as int, hi as int, ts as int),
        0 <= y <= hi + 40,
        y + line_height(ts as int) * 5 < hi ==> stats.low + stats.medium + stats.high + stats.urgent <= u32::MAX,
    ensures
        final(c).wf(),
        final(c).w == old(c).w,
        final(c).h == old(c).h,
        final(c).pixels@ == apply_all(
            old(c).pixels@,
            old(c).w as int,
            priority_section(pad as int, y as int, iw as int, hi as int, ts as int, stats@).0,
        ),
        next_y == priority_section(pad as int, y as int, iw as int, hi as int, ts as int, stats@).1,
        next_y <= hi + 40,
{
    let ghost px = c.pixels@;
    let ghost cw = c.w as int;
    let lh = 7 * (ts as i32) + 4;
    if !(y + lh * 5 < hi) {
        return y;
    }
    proof {
        reveal_strlit("Priority");
    }
    let y0 = title_row(c, pad, y, hi, ts, "Priority");
    let sum = stats.low + stats.medium + stats.high + stats.urgent;
    let total = if sum >= 1 {
        sum
    } else {
        1
    };
    let y1 = bar_row_at(c, pad, y0, iw, hi, ts, "Low", stats.low, total, SLATE);
    let y2 = bar_row_at(c, pad, y1, iw, hi, ts, "Medium", stats.medium, total, BLUE);
    let y3 = bar_row_at(c, pad, y2, iw, hi, ts, "High", stats.high, total, ORANGE);
    let y4 = bar_row_at(c, pad, y3, iw, hi, ts, "Urgent", stats.urgent, total, RED);
    proof {
        let t = titled(pad as int, y as int, hi as int, ts as int, "Priority"@);
        let r1 = bar_row(pad as int, y0 as int, iw as int, hi as int, ts as int, "Low"@, stats.low, total, SLATE@);
        let r2 = bar_row(pad as int, y1 as int, iw as int, hi as int, ts as int, "Medium"@, stats.medium, total, BLUE@);
        let r3 = bar_row(pad as int, y2 as int, iw as int, hi as int, ts as int, "High"@, stats.high, total, ORANGE@);
        let r4 = bar_row(pad as int, y3 as int, iw as int, hi as int, ts as int, "Urgent"@, stats.urgent, total, RED@);
        lemma_apply_all_concat(px, cw, t.0, r1.0);
        lemma_apply_all_concat(px, cw, t.0 + r1.0, r2.0);
        lemma_apply_all_concat(px, cw, t.0 + r1.0 + r2.0, r3.0);
        lemma_apply_all_concat(px, cw, t.0 + r1.0 + r2.0 + r3.0, r4.0);
    }
    y4 + 4
}

/// Draws the projects section (see [`projects_section`]).
fn project_bars(c: &mut Canvas, pad: i32, y: i32, iw: i32, hi: i32, ts: u32, stats: &Stats)
    requires
        old(c).wf(),
        room(pad as int, iw as int, hi as int, ts as int),
        0 <= y <= hi + 40,
    ensures
        final(c).wf(),
        final(c).w == old(c).w,
        final(c).h == old(c).h,
        final(c).pixels@ == apply_all(
            old(c).pixels@,
            old(c).w as int,
            projects_section(pad as int, y as int, iw as int, hi as int, ts as int, stats@.by_project),
        ),
{
    let ghost px = c.pixels@;
    let ghost cw = c.w as int;
    let ghost ps = stats@.by_project;
    let n = stats.by_project.len();
    let lh = 7 * (ts as i32) + 4;
    if !(n > 0 && y + lh * 2 < hi) {
        proof {
            assert(apply_all(px, cw, Seq::empty()) == px);
        }
        return;
    }
    proof {
        reveal_strlit("Projects");
    }
    let y0 = title_row(c, pad, y, hi, ts, "Projects");
    let ghost p0 = c.pixels@;

    // The largest count, at least 1.
    let mut most: u32 = 0;
    let mut i: usize = 0;
    while i < n
        invariant
            0 <= i <= n,
            n == stats.by_project@.len(),
            ps == stats@.by_project,
            most == max_count(ps.take(i as int)),
        decreases n - i,
    {
        let cnt = stats.by_project[i].1;
        assert(ps.take(i + 1).drop_last() =~= ps.take(i as int));
        if cnt > most {
            most = cnt;
        }
        i = i + 1;
    }
    assert(ps.take(n as int) =~= ps);
    let pm = if most >= 1 {
        most
    } else {
        1
    };
    let ghost all_rows = project_rows(pad as int, y0 as int, iw as int, hi as int, ts as int, ps, pm);

    let mut yy = y0;
    let mut k: usize = 0;
    let ghost mut done: Seq<Draw> = Seq::empty();
    assert(ps.skip(0) =~= ps);
    assert(done + all_rows =~= all_rows);
    while k < n && yy + lh <= hi
        invariant
            0 <= k <= n,
            n == stats.by_project@.len(),
            ps == stats@.by_project,
            room(pad as int, iw as int, hi as int, ts as int),
            lh == line_height(ts as int),
            0 <= yy <= hi + 40,
            c.wf(),
            c.w == cw,
            c.h == old(c).h,
            c.pixels@ == apply_all(p0, cw, done),
            done + project_rows(pad as int, yy as int, iw as int, hi as int, ts as int, ps.skip(k as int), pm)
                == all_rows,
        decreases n - k,
    {
        let ghost before = c.pixels@;
        let entry = &stats.by_project[k];
        let ghost d = stat_bar_draws(pad as int, yy as int, iw as int, entry.0@, entry.1, pm, BLUE@, ts as int);
        assert(ps.skip(k as int)[0] == ps[k as int]);
        assert(ps.skip(k as int).drop_first() =~= ps.skip(k + 1));
        assert(project_rows(pad as int, yy as int, iw as int, hi as int, ts as int, ps.skip(k as int), pm)
            == d + project_rows(pad as int, yy + 7 * ts + 4, iw as int, hi as int, ts as int, ps.skip(k + 1), pm));
        proof {
            lemma_row_fits(pad as int, yy as int, iw as int, hi as int, entry.1, pm, ts as int);
        }
        yy = stat_bar(c, pad, yy, iw, entry.0.as_str(), entry.1, pm, BLUE, ts);
        proof {
            lemma_apply_all_concat(p0, cw, done, d);
            assert(done + d + project_rows(pad as int, yy as int, iw as int, hi as int, ts as int, ps.skip(k + 1), pm)
                =~= done + (d + project_rows(pad as int, yy as int, iw as int, hi as int, ts as int, ps.skip(k + 1), pm)));
            done = done + d;
        }
        k = k + 1;
    }
    proof {
        if k == n {
            assert(ps.skip(k as int).len() == 0);
        }
        assert(project_rows(pad as int, yy as int, iw as int, hi as int, ts as int, ps.skip(k as int), pm) == Seq::<Draw>::empty());
        assert(done =~= all_rows);
        let t = titled(pad as int, y as int, hi as int, ts as int, "Projects"@);
        lemma_apply_all_concat(px, cw, t.0, all_rows);
    }
}

/// Draws the header (see [`header_draws`]); returns the `y` below it.
fn draw_header(c: &mut Canvas, pad: i32, iw: i32, ts: u32) -> (next_y: i32)
    requires
        old(c).wf(),
        4 <= pad <= 20,
        30 <= iw,
        pad + iw <= i32::MAX,
        1 <= ts <= 4,
    ensures
        final(c).wf(),
        final(c).w == old(c).w,
        final(c).h == old(c).h,
        final(c).pixels@ == apply_all(
            old(c).pixels@,
            old(c).w as int,
            header_draws(pad as int, iw as int, ts as int),
        ),
        next_y == pad + line_height(ts as int) + 6,
{
    let ghost b0 = c.pixels@;
    let ghost cw = c.w as int;
    let lh = 7 * (ts as i32) + 4;
    let mut y = pad;
    let header = if iw >= 6 * (ts as i32) * 10 {
        "TASK STATS"
    } else {
        "STATS"
    };
    proof {
        reveal_strlit("TASK STATS");
        reveal_strlit("STATS");
    }
    let ghost d1 = Draw::Label(pad as int, y as int, header@, MUTED@, ts as int);
    proof {
        assert(6 * ts * header@.len() <= 240) by (nonlinear_arith)
            requires
                ts <= 4,
                header@.len() <= 10,
        ;
        lemma_text_box_fits(pad as int, y as int, header@, ts as int);
    }
    c.text(pad, y, header, MUTED, ts);
    y = y + lh;
    let ghost d2 = Draw::Fill(pad as int, y as int, iw as int, 1, BORDER@);
    c.rect(pad, y, iw, 1, BORDER);
    y = y + 6;
    proof {
        lemma_apply_push(b0, cw, Seq::empty(), d1);
        lemma_apply_push(b0, cw, seq![d1], d2);
        assert(Seq::<Draw>::empty().push(d1) =~= seq![d1]);
        assert(seq![d1].push(d2) =~= seq![d1, d2]);
        assert(header_draws(pad as int, iw as int, ts as int) =~= seq![d1, d2]);
    }
    y
}

/// Draws the summary row (see [`summary_draws`]); returns the `y` below it.
fn draw_summary(c: &mut Canvas, pad: i32, y: i32, iw: i32, ts: u32, stats: &Stats) -> (next_y: i32)
    requires
        old(c).wf(),
        4 <= pad <= 20,
        30 <= iw,
        pad + iw <= i32::MAX,
        0 <= y <= 100,
        ts as int == text_scale(iw as int),
    ensures
        final(c).wf(),
        final(c).w == old(c).w,
        final(c).h == old(c).h,
        final(c).pixels@ == apply_all(
            old(c).pixels@,
            old(c).w as int,
            summary_draws(pad as int, y as int, iw as int, ts as int, stats@),
        ),
        next_y == summary_end(y as int, iw as int, ts as int),
{
    let ghost b0 = c.pixels@;
    let ghost cw = c.w as int;
    let lh = 7 * (ts as i32) + 4;
    if iw >= 90 {
        let col_w = iw / 3;
        let vs: u32 = if col_w >= 80 {
            3
        } else if col_w >= 48 {
            2
        } else {
            1
        };
        let ov_color = if stats.overdue > 0 {
            RED
        } else {
            GREEN
        };
        proof {
            lemma_decimal_u32_len(stats.total);
            lemma_decimal_u32_len(stats.overdue);
            lemma_decimal_u32_len(stats.projects);
            reveal_strlit("total");
            reveal_strlit("overdue");
            reveal_strlit("projects");
            lemma_cell_fits(pad as int, y as int, col_w as int, decimal(stats.total as nat), "total"@, vs as int, ts as int);
            lemma_cell_fits((pad + col_w) as int, y as int, col_w as int, decimal(stats.overdue as nat), "overdue"@, vs as int, ts as int);
            lemma_cell_fits((pad + col_w * 2) as int, y as int, col_w as int, decimal(stats.projects as nat), "projects"@, vs as int, ts as int);
        }
        let total_s = decimal_string(stats.total);
        let ghost c1 = summary_cell_draws(pad as int, y as int, col_w as int, total_s@, "total"@, TEXT@, vs as int, ts as int);
        summary_cell(c, pad, y, col_w, total_s.as_str(), "total", TEXT, vs, ts);
        let overdue_s = decimal_string(stats.overdue);
        let ghost c2 = summary_cell_draws((pad + col_w) as int, y as int, col_w as int, overdue_s@, "overdue"@, ov_color@, vs as int, ts as int);
        summary_cell(c, pad + col_w, y, col_w, overdue_s.as_str(), "overdue", ov_color, vs, ts);
        let projects_s = decimal_string(stats.projects);
        let ghost c3 = summary_cell_draws((pad + col_w * 2) as int, y as int, col_w as int, projects_s@, "projects"@, BLUE@, vs as int, ts as int);
        summary_cell(c, pad + col_w * 2, y, col_w, projects_s.as_str(), "projects", BLUE, vs, ts);
        proof {
            lemma_apply_all_concat(b0, cw, c1, c2);
            lemma_apply_all_concat(b0, cw, c1 + c2, c3);
        }
        y + 7 * (vs as i32) + lh + 6
    } else {
        proof {
            lemma_decimal_u32_len(stats.total);
            lemma_decimal_u32_len(stats.overdue);
            reveal_strlit(" tasks  ");
            reveal_strlit(" overdue");
        }
        let mut line = decimal_chars(stats.total);
        let mut part = chars_of(" tasks  ");
        line.append(&mut part);
        let mut num = decimal_chars(stats.overdue);
        line.append(&mut num);
        let mut tail = chars_of(" overdue");
        line.append(&mut tail);
        let ghost d3 = Draw::Label(pad as int, y as int, line@, TEXT@, ts as int);
        proof {
            assert(6 * ts * line@.len() <= 6 * 4 * 36) by (nonlinear_arith)
                requires
                    ts <= 4,
                    line@.len() <= 36,
            ;
            lemma_text_box_fits(pad as int, y as int, line@, ts as int);
        }
        put_label(c, pad, y, &line, TEXT, ts);
        proof {
            lemma_apply_push(b0, cw, Seq::empty(), d3);
            assert(Seq::<Draw>::empty().push(d3) =~= seq![d3]);
            assert(summary_draws(pad as int, y as int, iw as int, ts as int, stats@) =~= seq![d3]);
        }
        y + lh + 4
    }
}

/// Draws the status, priority and project sections.
fn draw_sections(c: &mut Canvas, pad: i32, y: i32, iw: i32, hi: i32, ts: u32, stats: &Stats)
    requires
        old(c).wf(),
        room(pad as int, iw as int, hi as int, ts as int),
        0 <= y < hi,
        stats.todo + stats.in_prog + stats.done + stats.cancelled <= u32::MAX,
        status_section(pad as int, y as int, iw as int, hi as int, ts as int, StatsView::empty()).1
            + line_height(ts as int) * 5 < hi ==> stats.low + stats.medium + stats.high
            + stats.urgent <= u32::MAX,
    ensures
        final(c).wf(),
        final(c).w == old(c).w,
        final(c).h == old(c).h,
        ({
            let s1 = status_section(pad as int, y as int, iw as int, hi as int, ts as int, stats@);
            let s2 = priority_section(pad as int, s1.1, iw as int, hi as int, ts as int, stats@);
            final(c).pixels@ == apply_all(
                old(c).pixels@,
                old(c).w as int,
                s1.0 + s2.0 + projects_section(
                    pad as int,
                    s2.1,
                    iw as int,
                    hi as int,
                    ts as int,
                    stats@.by_project,
                ),
            )
        }),
{
    let ghost b0 = c.pixels@;
    let ghost cw = c.w as int;
    let y1 = status_rows(c, pad, y, iw, hi, ts, stats);
    proof {
        assert(status_section(pad as int, y as int, iw as int, hi as int, ts as int, stats@).1
            == status_section(pad as int, y as int, iw as int, hi as int, ts as int, StatsView::empty()).1);
    }
    let y2 = priority_rows(c, pad, y1, iw, hi, ts, stats);
    project_bars(c, pad, y2, iw, hi, ts, stats);
    proof {
        let s1 = status_section(pad as int, y as int, iw as int, hi as int, ts as int, stats@);
        let s2 = priority_section(pad as int, s1.1, iw as int, hi as int, ts as int, stats@);
        let s3 = projects_section(pad as int, s2.1, iw as int, hi as int, ts as int, stats@.by_project);
        lemma_apply_all_concat(b0, cw, s1.0, s2.0);
        lemma_apply_all_concat(b0, cw, s1.0 + s2.0, s3);
    }
}

/// Draws the dashboard for `stats` on a fresh `w` by `h` canvas and returns
/// its pixels (RGBA, row by row).
#[verifier::rlimit(60)]
pub fn render(w: u32, h: u32, stats: &Stats) -> (pixels: Vec<u8>)
    requires
        render_fits(w, h, stats@),
    ensures
        pixels@ == apply_all(blank(w as nat, h as nat), w as int, dashboard(w, h, stats@)),
{
    let mut c = Canvas::new(w, h);
    let ghost b0 = c.pixels@;
    let ghost cw = w as int;
    proof {
        assert(w <= 0x7fff_ffff ==> w as i32 == w) by (bit_vector);
        assert(w > 0x7fff_ffff ==> w as i32 == w - 0x1_0000_0000) by (bit_vector);
    }
    let wi = w as i32;
    let pad = if wi < 80 {
        4
    } else if wi >= 400 {
        20
    } else {
        wi / 20
    };
    let iw0 = wi - pad * 2;
    let iw = if iw0 >= 1 {
        iw0
    } else {
        1
    };
    assert(iw == inner_width(w));
    if iw < 30 {
        return c.pixels;
    }
    proof {
        assert(h <= 0x200_0000) by (nonlinear_arith)
            requires
                w >= 38,
                w * h * 4 <= u32::MAX,
        ;
        if h >= 1 {
            assert(w <= 0x4000_0000) by (nonlinear_arith)
                requires
                    h >= 1,
                    w * h * 4 <= u32::MAX,
            ;
        }
    }

    // The text scale grows with the available width.
    let ts: u32 = if iw >= 900 {
        4
    } else if iw >= 500 {
        3
    } else if iw >= 200 {
        2
    } else {
        1
    };
    let y0 = draw_header(&mut c, pad, iw, ts);
    let ghost p1 = c.pixels@;
    let y = draw_summary(&mut c, pad, y0, iw, ts, stats);
    let ghost head = header_draws(pad as int, iw as int, ts as int) + summary_draws(
        pad as int,
        y0 as int,
        iw as int,
        ts as int,
        stats@,
    );
    proof {
        lemma_apply_all_concat(b0, cw, header_draws(pad as int, iw as int, ts as int), summary_draws(pad as int, y0 as int, iw as int, ts as int, stats@));
    }
    if iw < 50 || y >= h as i32 {
        return c.pixels;
    }
    let hi = h as i32;
    assert(y == sections_y(w));
    assert(shows_sections(w, h));
    draw_sections(&mut c, pad, y, iw, hi, ts, stats);
    proof {
        let s1 = status_section(pad as int, y as int, iw as int, hi as int, ts as int, stats@);
        let s2 = priority_section(pad as int, s1.1, iw as int, hi as int, ts as int, stats@);
        let s3 = projects_section(pad as int, s2.1, iw as int, hi as int, ts as int, stats@.by_project);
        lemma_apply_all_concat(b0, cw, head, s1.0 + s2.0 + s3);
        assert(head + (s1.0 + s2.0 + s3) =~= head + s1.0 + s2.0 + s3);
    }
    c.pixels
}

// ---------------------------------------------------------------------------
// Laws of the layout
// ---------------------------------------------------------------------------

proof fn lemma_apply_all_len(px: Seq<u8>, w: int, ds: Seq<Draw>)
    ensures
        apply_all(px, w, ds).len() == px.len(),
    decreases ds.len(),
{
    if ds.len() > 0 {
        lemma_apply_all_len(px, w, ds.drop_last());
    }
}

/// Law: the rendered frame always holds exactly `w * h` RGBA pixels,
/// whatever the statistics.
pub proof fn law_render_size(w: u32, h: u32, st: StatsView)
    ensures
        apply_all(blank(w as nat, h as nat), w as int, dashboard(w, h, st)).len() == w * h * 4,
{
    lemma_apply_all_len(blank(w as nat, h as nat), w as int, dashboard(w, h, st));
}

/// Law: a canvas too narrow for the layout (less than 30 pixels inside the
/// margins) is left blank.
pub proof fn law_narrow_canvas_is_blank(w: u32, h: u32, st: StatsView)
    requires
        inner_width(w) < 30,
    ensures
        apply_all(blank(w as nat, h as nat), w as int, dashboard(w, h, st)) == blank(
            w as nat,
            h as nat,
        ),
{
}

/// Law: the header and the summary are all that is drawn when the summary
/// reaches the bottom of the canvas.
pub proof fn law_short_canvas_shows_summary_only(w: u32, h: u32, st: StatsView)
    requires
        inner_width(w) >= 30,
        !shows_sections(w, h),
    ensures
        ({
            let pad = pad_for(wrap_i32(w));
            let iw = inner_width(w);
            let ts = text_scale(iw);
            dashboard(w, h, st) == header_draws(pad, iw, ts) + summary_draws(
                pad,
                pad + line_height(ts) + 6,
                iw,
                ts,
                st,
            )
        }),
{
}

/// Law: the largest project count is at least every count, and is one of
/// them when there are projects (0 when there are none).
pub proof fn law_max_count(ps: Seq<(Seq<char>, u32)>)
    ensures
        forall|i: int| 0 <= i < ps.len() ==> #[trigger] ps[i].1 <= max_count(ps),
        ps.len() == 0 ==> max_count(ps) == 0,
        ps.len() > 0 ==> exists|i: int| 0 <= i < ps.len() && #[trigger] ps[i].1 == max_count(ps),
    decreases ps.len(),
{
    if ps.len() > 0 {
        let init = ps.drop_last();
        law_max_count(init);
        assert forall|i: int| 0 <= i < ps.len() implies #[trigger] ps[i].1 <= max_count(ps) by {
            if i < init.len() {
                assert(ps[i] == init[i]);
            }
        }
        if max_count(init) >= ps.last().1 && init.len() > 0 {
            let i = choose|i: int| 0 <= i < init.len() && #[trigger] init[i].1 == max_count(init);
            assert(ps[i] == init[i]);
        } else {
            assert(ps[ps.len() - 1].1 == max_count(ps));
        }
    }
}

/// Law: the project rows are one bar row per project, in the order of
/// `ps`, one line apart from `y`, each in blue showing its count out of
/// `pm`, for as many projects as have their whole line above `h`: there are
/// `n` rows, the line of the last of them ends at or above `h`, and when a
/// project is left out, its line would have crossed `h`.
pub proof fn law_project_rows(
    pad: int,
    y: int,
    iw: int,
    h: int,
    ts: int,
    ps: Seq<(Seq<char>, u32)>,
    pm: u32,
)
    requires
        ts >= 1,
    ensures
        ({
            let rows = project_rows(pad, y, iw, h, ts, ps, pm);
            let n = rows.len() / 4;
            let lh = line_height(ts);
            &&& rows.len() % 4 == 0
            &&& n <= ps.len()
            &&& y + n * lh <= h || n == 0
            &&& n < ps.len() ==> y + (n + 1) * lh > h
            &&& forall|k: int|
                0 <= k < n ==> #[trigger] rows.subrange(4 * k, 4 * k + 4) == stat_bar_draws(
                    pad,
                    y + k * lh,
                    iw,
                    ps[k].0,
                    ps[k].1,
                    pm,
                    BLUE@,
                    ts,
                )
        }),
    decreases ps.len(),
{
    let lh = line_height(ts);
    let rows = project_rows(pad, y, iw, h, ts, ps, pm);
    if ps.len() == 0 || y + lh > h {
        assert(rows.len() == 0);
    } else {
        let first = stat_bar_draws(pad, y, iw, ps[0].0, ps[0].1, pm, BLUE@, ts);
        let tail = ps.drop_first();
        let more = project_rows(pad, y + lh, iw, h, ts, tail, pm);
        law_project_rows(pad, y + lh, iw, h, ts, tail, pm);
        assert(rows == first + more);
        assert(first.len() == 4);
        let m = more.len() / 4;
        let n = rows.len() / 4;
        assert(rows.len() == more.len() + 4);
        assert(n == m + 1);
        assert(n <= ps.len());
        assert(rows.len() % 4 == 0);
        assert(y + n * lh == y + lh + m * lh) by (nonlinear_arith)
            requires
                n == m + 1,
        ;
        assert(y + (n + 1) * lh == y + lh + (m + 1) * lh) by (nonlinear_arith)
            requires
                n == m + 1,
        ;
        assert forall|k: int| 0 <= k < n implies #[trigger] rows.subrange(4 * k, 4 * k + 4)
            == stat_bar_draws(pad, y + k * lh, iw, ps[k].0, ps[k].1, pm, BLUE@, ts) by {
            if k == 0 {
                assert(rows.subrange(0, 4) =~= first);
            } else {
                let k1 = k - 1;
                assert(more.subrange(4 * k1, 4 * k1 + 4) == stat_bar_draws(
                    pad,
                    y + lh + k1 * lh,
                    iw,
                    tail[k1].0,
                    tail[k1].1,
                    pm,
                    BLUE@,
                    ts,
                ));
                assert(rows.subrange(4 * k, 4 * k + 4) =~= more.subrange(4 * k1, 4 * k1 + 4));
                assert(tail[k1] == ps[k]);
                assert(y + lh + k1 * lh == y + k * lh) by (nonlinear_arith)
                    requires
                        k1 == k - 1,
                ;
            }
        }
    }
}

/// The four status rows, starting at `y` one line apart: Todo in blue,
/// In Progress in yellow, Done in green and Cancelled in slate, each with
/// its count out of `total`.
pub open spec fn status_rows_at(pad: int, y: int, iw: int, ts: int, st: StatsView, total: u32) -> Seq<Draw> {
    let lh = line_height(ts);
    stat_bar_draws(pad, y, iw, "Todo"@, st.todo, total, BLUE@, ts) + stat_bar_draws(
        pad,
        y + lh,
        iw,
        "In Progress"@,
        st.in_prog,
        total,
        YELLOW@,
        ts,
    ) + stat_bar_draws(pad, y + 2 * lh, iw, "Done"@, st.done, total, GREEN@, ts)
        + stat_bar_draws(pad, y + 3 * lh, iw, "Cancelled"@, st.cancelled, total, SLATE@, ts)
}

/// Law: when the title and the four rows of the status section fit above
/// the bottom, the dashboard draws, right after the header and the summary,
/// the title "Status" in the muted colour at the margin where the sections
/// start and, from the next line, the rows Todo, In Progress, Done and
/// Cancelled, each showing its count out of the sum of the four (1 when they
/// are all zero).
#[verifier::rlimit(40)]
pub proof fn law_dashboard_shows_status(w: u32, h: u32, st: StatsView)
    requires
        shows_sections(w, h),
        sections_y(w) + 4 * line_height(text_scale(inner_width(w))) < h,
        st.todo + st.in_prog + st.done + st.cancelled <= u32::MAX,
    ensures
        ({
            let pad = pad_for(wrap_i32(w));
            let iw = inner_width(w);
            let ts = text_scale(iw);
            let lh = line_height(ts);
            let ys = sections_y(w);
            let sum = st.todo + st.in_prog + st.done + st.cancelled;
            let total = (if sum >= 1 {
                sum
            } else {
                1
            }) as u32;
            let ds = dashboard(w, h, st);
            exists|j: int|
                0 <= j && j + 17 <= ds.len() && #[trigger] ds.subrange(j, j + 17) == seq![
                    Draw::Label(pad, ys, "Status"@, MUTED@, ts),
                ] + status_rows_at(pad, ys + lh, iw, ts, st, total)
        }),
{
    let wi = wrap_i32(w);
    let pad = pad_for(wi);
    let iw = inner_width(w);
    let ts = text_scale(iw);
    let lh = line_height(ts);
    let hi = h as int;
    let y1 = pad + lh + 6;
    let y2 = summary_end(y1, iw, ts);
    assert(y2 == sections_y(w));
    let head = header_draws(pad, iw, ts) + summary_draws(pad, y1, iw, ts, st);
    let s1 = status_section(pad, y2, iw, hi, ts, st);
    let s2 = priority_section(pad, s1.1, iw, hi, ts, st);
    let s3 = projects_section(pad, s2.1, iw, hi, ts, st.by_project);
    let ds = dashboard(w, h, st);
    assert(ds == head + s1.0 + s2.0 + s3);
    let sum = st.todo + st.in_prog + st.done + st.cancelled;
    let total = imax(sum, 1) as u32;
    let t = titled(pad, y2, hi, ts, "Status"@);
    let r1 = bar_row(pad, t.1, iw, hi, ts, "Todo"@, st.todo, total, BLUE@);
    let r2 = bar_row(pad, r1.1, iw, hi, ts, "In Progress"@, st.in_prog, total, YELLOW@);
    let r3 = bar_row(pad, r2.1, iw, hi, ts, "Done"@, st.done, total, GREEN@);
    let r4 = bar_row(pad, r3.1, iw, hi, ts, "Cancelled"@, st.cancelled, total, SLATE@);
    assert(t.1 == y2 + lh);
    assert(r1.1 == y2 + 2 * lh);
    assert(r2.1 == y2 + 3 * lh);
    assert(r3.1 == y2 + 4 * lh);
    let rows = status_rows_at(pad, y2 + lh, iw, ts, st, total);
    assert(s1.0 == t.0 + r1.0 + r2.0 + r3.0 + r4.0);
    assert(s1.0 =~= seq![Draw::Label(pad, y2, "Status"@, MUTED@, ts)] + rows);
    let j: int = head.len() as int;
    assert(s1.0.len() == 17);
    assert(ds.subrange(j, j + 17) =~= s1.0);
}

/// The four priority rows, starting at `y` one line apart: Low in slate,
/// Medium in blue, High in orange and Urgent in red, each with its count out
/// of `total`.
pub open spec fn priority_rows_at(pad: int, y: int, iw: int, ts: int, st: StatsView, total: u32) -> Seq<Draw> {
    let lh = line_height(ts);
    stat_bar_draws(pad, y, iw, "Low"@, st.low, total, SLATE@, ts) + stat_bar_draws(
        pad,
        y + lh,
        iw,
        "Medium"@,
        st.medium,
        total,
        BLUE@,
        ts,
    ) + stat_bar_draws(pad, y + 2 * lh, iw, "High"@, st.high, total, ORANGE@, ts)
        + stat_bar_draws(pad, y + 3 * lh, iw, "Urgent"@, st.urgent, total, RED@, ts)
}

/// Law: when five lines fit below the status section, the dashboard shows
/// the priority section. The status title and its four rows take five
/// lines, and 4 pixels follow them; there the dashboard draws, one after
/// the other, the title "Priority" in the muted colour at the margin and,
/// from the next line, the rows Low, Medium, High and Urgent, each showing
/// its count out of the sum of the four (1 when they are all zero).
#[verifier::rlimit(40)]
pub proof fn law_dashboard_shows_priority(w: u32, h: u32, st: StatsView)
    requires
        shows_priority(w, h),
        st.low + st.medium + st.high + st.urgent <= u32::MAX,
    ensures
        ({
            let pad = pad_for(wrap_i32(w));
            let iw = inner_width(w);
            let ts = text_scale(iw);
            let lh = line_height(ts);
            let yp = sections_y(w) + 5 * lh + 4;
            let sum = st.low + st.medium + st.high + st.urgent;
            let total = (if sum >= 1 {
                sum
            } else {
                1
            }) as u32;
            let ds = dashboard(w, h, st);
            exists|j: int|
                0 <= j && j + 17 <= ds.len() && #[trigger] ds.subrange(j, j + 17) == seq![
                    Draw::Label(pad, yp, "Priority"@, MUTED@, ts),
                ] + priority_rows_at(pad, yp + lh, iw, ts, st, total)
        }),
{
    let wi = wrap_i32(w);
    let pad = pad_for(wi);
    let iw = inner_width(w);
    let ts = text_scale(iw);
    let lh = line_height(ts);
    let hi = h as int;
    let y1 = pad + lh + 6;
    let y2 = summary_end(y1, iw, ts);
    assert(y2 == sections_y(w));
    let head = header_draws(pad, iw, ts) + summary_draws(pad, y1, iw, ts, st);
    let s1 = status_section(pad, y2, iw, hi, ts, st);
    let s1e = status_section(pad, y2, iw, hi, ts, StatsView::empty());
    assert(s1.1 == s1e.1);
    assert(s1.1 == y2 + 5 * lh + 4);
    let yp = y2 + 5 * lh + 4;
    let s2 = priority_section(pad, s1.1, iw, hi, ts, st);
    let s3 = projects_section(pad, s2.1, iw, hi, ts, st.by_project);
    let ds = dashboard(w, h, st);
    assert(ds == head + s1.0 + s2.0 + s3);
    let sum = st.low + st.medium + st.high + st.urgent;
    let total = imax(sum, 1) as u32;
    let t = titled(pad, yp, hi, ts, "Priority"@);
    let r1 = bar_row(pad, t.1, iw, hi, ts, "Low"@, st.low, total, SLATE@);
    let r2 = bar_row(pad, r1.1, iw, hi, ts, "Medium"@, st.medium, total, BLUE@);
    let r3 = bar_row(pad, r2.1, iw, hi, ts, "High"@, st.high, total, ORANGE@);
    let r4 = bar_row(pad, r3.1, iw, hi, ts, "Urgent"@, st.urgent, total, RED@);
    assert(t.1 == yp + lh);
    assert(r1.1 == yp + 2 * lh);
    assert(r2.1 == yp + 3 * lh);
    assert(r3.1 == yp + 4 * lh);
    let rows = priority_rows_at(pad, yp + lh, iw, ts, st, total);
    assert(s2.0 == t.0 + r1.0 + r2.0 + r3.0 + r4.0);
    assert(s2.0 =~= seq![Draw::Label(pad, yp, "Priority"@, MUTED@, ts)] + rows);
    let j: int = (head.len() + s1.0.len()) as int;
    assert(s2.0.len() == 17);
    assert(ds.subrange(j, j + 17) =~= s2.0);
}

/// Law: with the priority section shown, projects to show, and two lines
/// left below the priority section, the dashboard ends with the project
/// section: the title "Projects" in the muted colour at the margin, 4 pixels
/// below the priority rows, then the project rows from the next line (see
/// [`law_project_rows`]), each showing its count out of the largest count
/// (at least 1).
#[verifier::rlimit(40)]
pub proof fn law_dashboard_shows_projects(w: u32, h: u32, st: StatsView)
    requires
        shows_priority(w, h),
        st.by_project.len() > 0,
        sections_y(w) + 12 * line_height(text_scale(inner_width(w))) + 8 < h,
    ensures
        ({
            let pad = pad_for(wrap_i32(w));
            let iw = inner_width(w);
            let ts = text_scale(iw);
            let lh = line_height(ts);
            let yq = sections_y(w) + 10 * lh + 8;
            let ps = st.by_project;
            let pm = if max_count(ps) >= 1 {
                max_count(ps)
            } else {
                1
            };
            let ds = dashboard(w, h, st);
            exists|j: int|
                0 <= j < ds.len() && #[trigger] ds[j] == Draw::Label(pad, yq, "Projects"@, MUTED@, ts)
                    && ds.skip(j + 1) == project_rows(pad, yq + lh, iw, h as int, ts, ps, pm)
        }),
{
    let wi = wrap_i32(w);
    let pad = pad_for(wi);
    let iw = inner_width(w);
    let ts = text_scale(iw);
    let lh = line_height(ts);
    let hi = h as int;
    let y1 = pad + lh + 6;
    let y2 = summary_end(y1, iw, ts);
    assert(y2 == sections_y(w));
    let head = header_draws(pad, iw, ts) + summary_draws(pad, y1, iw, ts, st);
    let s1 = status_section(pad, y2, iw, hi, ts, st);
    let s1e = status_section(pad, y2, iw, hi, ts, StatsView::empty());
    assert(s1.1 == s1e.1);
    assert(s1.1 == y2 + 5 * lh + 4);
    let s2 = priority_section(pad, s1.1, iw, hi, ts, st);
    assert(s2.1 == y2 + 10 * lh + 8);
    let yq = y2 + 10 * lh + 8;
    let ps = st.by_project;
    let s3 = projects_section(pad, s2.1, iw, hi, ts, ps);
    let ds = dashboard(w, h, st);
    assert(ds == head + s1.0 + s2.0 + s3);
    let pm = if max_count(ps) >= 1 {
        max_count(ps)
    } else {
        1
    };
    let t = titled(pad, yq, hi, ts, "Projects"@);
    assert(t.1 == yq + lh);
    let rows = project_rows(pad, yq + lh, iw, hi, ts, ps, pm);
    assert(s3 == t.0 + rows);
    assert(s3 =~= seq![Draw::Label(pad, yq, "Projects"@, MUTED@, ts)] + rows);
    let j: int = (head.len() + s1.0.len() + s2.0.len()) as int;
    assert(ds[j] == s3[0]);
    assert(ds.skip(j + 1) =~= rows);
}

// ---------------------------------------------------------------------------
// Checking the bounds of a render
// ---------------------------------------------------------------------------

/// The `y` after a section title and four bar rows starting at `y` (see
/// [`four_rows`]), which does not depend on the counts.
fn rows_end(y: i64, h: i64, ts: i64) -> (r: i64)
    requires
        0 <= y <= 0x1_0000_0000,
        0 <= h <= 0x1_0000_0000,
        1 <= ts <= 4,
    ensures
        r == status_section(0, y as int, 0, h as int, ts as int, StatsView::empty()).1,
        r <= y + 200,
{
    let lh = 7 * ts + 4;
    let mut yy = if y + lh < h {
        y + lh
    } else {
        y
    };
    if yy < h {
        yy = yy + lh;
    }
    if yy < h {
        yy = yy + lh;
    }
    if yy < h {
        yy = yy + lh;
    }
    if yy < h {
        yy = yy + lh;
    }
    yy + 4
}

/// Whether [`render`] may be called: `render_fits(w, h, stats@)`.
pub fn render_fits_check(w: u32, h: u32, stats: &Stats) -> (ok: bool)
    ensures
        ok == render_fits(w, h, stats@),
{
    proof {
        assert(w <= 0x7fff_ffff ==> w as i32 == w) by (bit_vector);
        assert(w > 0x7fff_ffff ==> w as i32 == w - 0x1_0000_0000) by (bit_vector);
    }
    assert(w * h <= 0xffff_ffff * 0xffff_ffff) by (nonlinear_arith)
        requires
            w <= 0xffff_ffff,
            h <= 0xffff_ffff,
    ;
    if (w as u128) * (h as u128) * 4 > 0xffff_ffff {
        return false;
    }
    let wi = (w as i32) as i64;
    let pad: i64 = if wi < 80 {
        4
    } else if wi >= 400 {
        20
    } else {
        wi / 20
    };
    if wi - pad * 2 < -0x8000_0000 {
        return false;
    }
    let iw0 = wi - pad * 2;
    let iw = if iw0 >= 1 {
        iw0
    } else {
        1
    };
    assert(iw == inner_width(w));
    let ts: i64 = if iw >= 900 {
        4
    } else if iw >= 500 {
        3
    } else if iw >= 200 {
        2
    } else {
        1
    };
    let lh = 7 * ts + 4;
    let y1 = pad + lh + 6;
    let y2 = if iw >= 90 {
        let col_w = iw / 3;
        let vs = if col_w >= 80 {
            3
        } else if col_w >= 48 {
            2
        } else {
            1
        };
        y1 + 7 * vs + lh + 6
    } else {
        y1 + lh + 4
    };
    assert(y2 == sections_y(w));
    let hl = h as i64;
    let sections = iw >= 50 && y2 < hl;
    if !sections {
        return true;
    }
    if (stats.todo as u64) + (stats.in_prog as u64) + (stats.done as u64) + (stats.cancelled as u64)
        > 0xffff_ffff {
        return false;
    }
    let y3 = rows_end(y2, hl, ts);
    proof {
        assert(status_section(pad as int, y2 as int, iw as int, h as int, ts as int, StatsView::empty()).1
            == status_section(0, y2 as int, 0, h as int, ts as int, StatsView::empty()).1);
    }
    if y3 + lh * 5 < hl {
        (stats.low as u64) + (stats.medium as u64) + (stats.high as u64) + (stats.urgent as u64)
            <= 0xffff_ffff
    } else {
        true
    }
}

/// Draws the dashboard when its arithmetic fits ([`render_fits`]); `None`
/// otherwise.
pub fn try_render(w: u32, h: u32, stats: &Stats) -> (r: Option<Vec<u8>>)
    ensures
        r is Some <==> render_fits(w, h, stats@),
        r matches Some(px) ==> px@ == apply_all(
            blank(w as nat, h as nat),
            w as int,
            dashboard(w, h, stats@),
        ),
{
    if render_fits_check(w, h, stats) {
        Some(render(w, h, stats))
    } else {
        None
    }
}

} // verus!
