//! What a list of drawing steps can change.
//!
//! A step paints only its own region, in its own colour. So a list of steps
//! that all stay inside a region, in colours of a given set, leaves every
//! pixel outside that region as it was and gives each pixel it changes a
//! colour of that set. From this follow the facts about a bar row, a summary
//! cell and the whole dashboard below.
use vstd::prelude::*;
use vstd::arithmetic::div_mod::lemma_fundamental_div_mod_converse;
use crate::canvas::{BG, SLATE, blank, in_rect, in_text, paint, lemma_paint_ext, law_text_within_box};
use crate::fill::law_bar_fill_zero_count;
use crate::chars::decimal;
use crate::report::StatsView;
use crate::layout::{
    Draw, apply, apply_all, stat_bar_draws, stat_bar_width, summary_cell_draws, center_x, imax,
    text_scale, titled, bar_row, four_rows, line_height, project_rows, dashboard, wrap_i32, pad_for,
    inner_width, header_draws, summary_draws, value_scale, summary_end, status_section,
    priority_section, projects_section, max_count, MUTED, TEXT, BORDER, GREEN, BLUE, YELLOW, RED,
    ORANGE,
};

verus! {

/// The four bytes of pixel `k`.
pub open spec fn pixel(px: Seq<u8>, k: int) -> Seq<u8> {
    px.subrange(4 * k, 4 * k + 4)
}

/// The step `d` paints the point `(a, b)`.
pub open spec fn step_paints(d: Draw, a: int, b: int) -> bool {
    match d {
        Draw::Fill(x, y, fw, fh, c) => in_rect(x, y, fw, fh, a, b),
        Draw::Label(x, y, s, c, scale) => in_text(x, y, s, scale, s.len() as int, a, b),
    }
}

/// The colour of the step `d`.
pub open spec fn step_color(d: Draw) -> Seq<u8> {
    match d {
        Draw::Fill(x, y, fw, fh, c) => c,
        Draw::Label(x, y, s, c, scale) => c,
    }
}

/// Every point that `d` paints lies in `region`, and is painted in a colour
/// that `ok` accepts.
pub open spec fn step_inside(
    d: Draw,
    region: spec_fn(int, int) -> bool,
    ok: spec_fn(Seq<u8>) -> bool,
) -> bool {
    forall|a: int, b: int| #[trigger] step_paints(d, a, b) ==> region(a, b) && ok(step_color(d))
}

/// Every step of `ds` stays inside `region` with colours that `ok` accepts.
pub open spec fn steps_inside(
    ds: Seq<Draw>,
    region: spec_fn(int, int) -> bool,
    ok: spec_fn(Seq<u8>) -> bool,
) -> bool {
    forall|i: int| 0 <= i < ds.len() ==> #[trigger] step_inside(ds[i], region, ok)
}

/// The colours of the dashboard.
pub open spec fn in_palette(c: Seq<u8>) -> bool {
    ||| c == BG@
    ||| c == BORDER@
    ||| c == TEXT@
    ||| c == MUTED@
    ||| c == GREEN@
    ||| c == BLUE@
    ||| c == YELLOW@
    ||| c == RED@
    ||| c == ORANGE@
    ||| c == SLATE@
}

// ---------------------------------------------------------------------------
// Steps and pixels
// ---------------------------------------------------------------------------

proof fn lemma_apply_step(px: Seq<u8>, w: int, d: Draw)
    ensures
        apply(px, w, d) == paint(px, w, |a: int, b: int| step_paints(d, a, b), step_color(d)),
{
    match d {
        Draw::Fill(x, y, fw, fh, c) => {
            lemma_paint_ext(
                px,
                w,
                |a: int, b: int| in_rect(x, y, fw, fh, a, b),
                |a: int, b: int| step_paints(d, a, b),
                c,
            );
        },
        Draw::Label(x, y, s, c, scale) => {
            lemma_paint_ext(
                px,
                w,
                |a: int, b: int| in_text(x, y, s, scale, s.len() as int, a, b),
                |a: int, b: int| step_paints(d, a, b),
                c,
            );
        },
    }
}

proof fn lemma_paint_pixel(
    px: Seq<u8>,
    w: int,
    region: spec_fn(int, int) -> bool,
    color: Seq<u8>,
    k: int,
)
    requires
        0 <= k,
        4 * k + 4 <= px.len(),
        region(k % w, k / w) ==> color.len() == 4,
    ensures
        pixel(paint(px, w, region, color), k) == if region(k % w, k / w) {
            color
        } else {
            pixel(px, k)
        },
{
    let q = paint(px, w, region, color);
    let e = if region(k % w, k / w) {
        color
    } else {
        pixel(px, k)
    };
    assert forall|j: int| 0 <= j < 4 implies #[trigger] pixel(q, k)[j] == e[j] by {
        lemma_fundamental_div_mod_converse(4 * k + j, 4, k, j);
    }
    assert(pixel(q, k) =~= e);
}

proof fn lemma_apply_inside(
    px: Seq<u8>,
    w: int,
    d: Draw,
    region: spec_fn(int, int) -> bool,
    ok: spec_fn(Seq<u8>) -> bool,
    k: int,
)
    requires
        step_inside(d, region, ok),
        forall|c: Seq<u8>| #[trigger] ok(c) ==> c.len() == 4,
        0 <= k,
        4 * k + 4 <= px.len(),
    ensures
        apply(px, w, d).len() == px.len(),
        pixel(apply(px, w, d), k) == pixel(px, k) || (region(k % w, k / w) && ok(
            pixel(apply(px, w, d), k),
        )),
{
    lemma_apply_step(px, w, d);
    let r = |a: int, b: int| step_paints(d, a, b);
    if step_paints(d, k % w, k / w) {
        assert(ok(step_color(d)));
    }
    lemma_paint_pixel(px, w, r, step_color(d), k);
}

/// Drawing steps that all stay inside `region`, in colours that `ok`
/// accepts, keep the size of the pixels, and leave each pixel as it was or
/// give it, inside the region, a colour that `ok` accepts.
pub proof fn lemma_apply_all_inside(
    px: Seq<u8>,
    w: int,
    ds: Seq<Draw>,
    region: spec_fn(int, int) -> bool,
    ok: spec_fn(Seq<u8>) -> bool,
    k: int,
)
    requires
        steps_inside(ds, region, ok),
        forall|c: Seq<u8>| #[trigger] ok(c) ==> c.len() == 4,
        0 <= k,
        4 * k + 4 <= px.len(),
    ensures
        apply_all(px, w, ds).len() == px.len(),
        pixel(apply_all(px, w, ds), k) == pixel(px, k) || (region(k % w, k / w) && ok(
            pixel(apply_all(px, w, ds), k),
        )),
    decreases ds.len(),
{
    if ds.len() > 0 {
        let init = ds.drop_last();
        assert forall|i: int| 0 <= i < init.len() implies #[trigger] step_inside(init[i], region, ok) by {
            assert(init[i] == ds[i]);
        }
        lemma_apply_all_inside(px, w, init, region, ok, k);
        assert(step_inside(ds[ds.len() - 1], region, ok));
        lemma_apply_inside(apply_all(px, w, init), w, ds.last(), region, ok, k);
    }
}

proof fn lemma_steps_concat(
    a: Seq<Draw>,
    b: Seq<Draw>,
    region: spec_fn(int, int) -> bool,
    ok: spec_fn(Seq<u8>) -> bool,
)
    requires
        steps_inside(a, region, ok),
        steps_inside(b, region, ok),
    ensures
        steps_inside(a + b, region, ok),
{
    assert forall|i: int| 0 <= i < (a + b).len() implies #[trigger] step_inside((a + b)[i], region, ok) by {
        if i < a.len() {
            assert((a + b)[i] == a[i]);
        } else {
            assert((a + b)[i] == b[i - a.len()]);
        }
    }
}

proof fn lemma_label_inside(
    x: int,
    y: int,
    s: Seq<char>,
    c: Seq<u8>,
    scale: int,
    region: spec_fn(int, int) -> bool,
    ok: spec_fn(Seq<u8>) -> bool,
)
    requires
        scale >= 0,
        ok(c),
        forall|a: int, b: int|
            x <= a && y <= b < y + 7 * scale ==> #[trigger] region(a, b),
    ensures
        step_inside(Draw::Label(x, y, s, c, scale), region, ok),
{
    let d = Draw::Label(x, y, s, c, scale);
    assert forall|a: int, b: int| #[trigger] step_paints(d, a, b) implies region(a, b) && ok(
        step_color(d),
    ) by {
        law_text_within_box(x, y, s, scale, a, b);
    }
}

// ---------------------------------------------------------------------------
// A bar row and a summary cell
// ---------------------------------------------------------------------------

proof fn lemma_stat_bar_inside(
    x: int,
    y: int,
    w: int,
    label: Seq<char>,
    count: u32,
    total: u32,
    color: Seq<u8>,
    ts: int,
    region: spec_fn(int, int) -> bool,
    ok: spec_fn(Seq<u8>) -> bool,
)
    requires
        ts >= 1,
        forall|a: int, b: int| y <= b < y + 7 * ts ==> #[trigger] region(a, b),
        ok(TEXT@),
        ok(SLATE@),
        ok(MUTED@),
        count == 0 || ok(color),
    ensures
        steps_inside(stat_bar_draws(x, y, w, label, count, total, color, ts), region, ok),
{
    let ds = stat_bar_draws(x, y, w, label, count, total, color, ts);
    let text_h = 7 * ts;
    let bar_h = imax(text_h / 2, 3);
    let bar_y = y + (text_h - bar_h) / 2;
    assert(y <= bar_y && bar_y + bar_h <= y + 7 * ts);
    lemma_label_inside(x, y, ds[0]->Label_2, TEXT@, ts, region, ok);
    lemma_label_inside(ds[3]->Label_0, y, ds[3]->Label_2, MUTED@, ts, region, ok);
    assert(step_inside(ds[1], region, ok));
    if count == 0 {
        law_bar_fill_zero_count(stat_bar_width(w), total as int);
    }
    assert(step_inside(ds[2], region, ok));
    assert forall|i: int| 0 <= i < ds.len() implies #[trigger] step_inside(ds[i], region, ok) by {
        assert(i == 0 || i == 1 || i == 2 || i == 3);
    }
}

/// Law: a bar row changes only pixels in the rows of its line of text,
/// `y <= py < y + 7 * ts`: every other pixel keeps its bytes.
pub proof fn law_stat_bar_rows(
    px: Seq<u8>,
    cw: int,
    x: int,
    y: int,
    w: int,
    label: Seq<char>,
    count: u32,
    total: u32,
    color: Seq<u8>,
    ts: int,
    k: int,
)
    requires
        ts >= 1,
        color.len() == 4,
        0 <= k,
        4 * k + 4 <= px.len(),
        !(y <= k / cw < y + 7 * ts),
    ensures
        pixel(apply_all(px, cw, stat_bar_draws(x, y, w, label, count, total, color, ts)), k)
            == pixel(px, k),
{
    let region = |a: int, b: int| y <= b < y + 7 * ts;
    let ok = |c: Seq<u8>| c.len() == 4;
    lemma_stat_bar_inside(x, y, w, label, count, total, color, ts, region, ok);
    lemma_apply_all_inside(px, cw, stat_bar_draws(x, y, w, label, count, total, color, ts), region, ok, k);
}

/// Law: a summary cell changes only pixels at or right of `x` and at or
/// below `y`, each to `color` or to the muted label colour.
pub proof fn law_summary_cell_region(
    px: Seq<u8>,
    cw: int,
    x: int,
    y: int,
    w: int,
    val: Seq<char>,
    label: Seq<char>,
    color: Seq<u8>,
    scale: int,
    label_scale: int,
    k: int,
)
    requires
        scale >= 0,
        label_scale >= 0,
        color.len() == 4,
        0 <= k,
        4 * k + 4 <= px.len(),
        pixel(
            apply_all(px, cw, summary_cell_draws(x, y, w, val, label, color, scale, label_scale)),
            k,
        ) != pixel(px, k),
    ensures
        k % cw >= x,
        k / cw >= y,
        pixel(
            apply_all(px, cw, summary_cell_draws(x, y, w, val, label, color, scale, label_scale)),
            k,
        ) == color || pixel(
            apply_all(px, cw, summary_cell_draws(x, y, w, val, label, color, scale, label_scale)),
            k,
        ) == MUTED@,
{
    let ds = summary_cell_draws(x, y, w, val, label, color, scale, label_scale);
    let region = |a: int, b: int| a >= x && b >= y;
    let ok = |c: Seq<u8>| c == color || c == MUTED@;
    lemma_cell_inside(x, y, w, val, label, color, scale, label_scale, region, ok);
    lemma_apply_all_inside(px, cw, ds, region, ok, k);
}

/// Law: a summary cell draws its value, then its label, each centred in
/// the column `w` wide at `x` (starting at `x` when wider than it). The value
/// is in `color` and takes the rows from `y` to `y + 7 * scale`; the label is
/// in the muted colour and starts 3 rows below the value's last row, so the
/// two never overlap.
pub proof fn law_summary_cell_layout(
    x: int,
    y: int,
    w: int,
    val: Seq<char>,
    label: Seq<char>,
    color: Seq<u8>,
    scale: int,
    label_scale: int,
)
    requires
        scale >= 0,
        label_scale >= 0,
    ensures
        summary_cell_draws(x, y, w, val, label, color, scale, label_scale).len() == 2,
        summary_cell_draws(x, y, w, val, label, color, scale, label_scale)[0] matches Draw::Label(
            vx,
            vy,
            v,
            c,
            sc,
        ) && v == val && c == color && sc == scale && vy == y && centred(
            x,
            w,
            vx,
            crate::canvas::text_width(val.len() as int, scale),
        ),
        summary_cell_draws(x, y, w, val, label, color, scale, label_scale)[1] matches Draw::Label(
            lx,
            ly,
            l,
            c,
            sc,
        ) && l == label && c == MUTED@ && sc == label_scale && centred(
            x,
            w,
            lx,
            crate::canvas::text_width(label.len() as int, label_scale),
        ),
        forall|a: int, b: int|
            #[trigger] step_paints(
                summary_cell_draws(x, y, w, val, label, color, scale, label_scale)[0],
                a,
                b,
            ) ==> x <= a && y <= b < y + 7 * scale,
        forall|a: int, b: int|
            #[trigger] step_paints(
                summary_cell_draws(x, y, w, val, label, color, scale, label_scale)[1],
                a,
                b,
            ) ==> x <= a && y + 7 * scale + 3 <= b < y + 7 * scale + 3 + 7 * label_scale,
{
    let ds = summary_cell_draws(x, y, w, val, label, color, scale, label_scale);
    assert forall|a: int, b: int| #[trigger] step_paints(ds[0], a, b) implies x <= a && y <= b < y
        + 7 * scale by {
        law_text_within_box(ds[0]->Label_0, y, val, scale, a, b);
    }
    assert forall|a: int, b: int| #[trigger] step_paints(ds[1], a, b) implies x <= a && y + 7 * scale
        + 3 <= b < y + 7 * scale + 3 + 7 * label_scale by {
        law_text_within_box(ds[1]->Label_0, y + 7 * scale + 3, label, label_scale, a, b);
    }
}

/// The text `tw` wide starting at `tx` is centred in the column `w` wide at
/// `x`: the space left of it and right of it differ by at most one pixel,
/// the extra one on the right; a text wider than the column starts at `x`.
pub open spec fn centred(x: int, w: int, tx: int, tw: int) -> bool {
    if tw <= w {
        let left = tx - x;
        let right = x + w - (tx + tw);
        0 <= left && 0 <= right - left <= 1
    } else {
        tx == x
    }
}

proof fn lemma_cell_inside(
    x: int,
    y: int,
    w: int,
    val: Seq<char>,
    label: Seq<char>,
    color: Seq<u8>,
    scale: int,
    label_scale: int,
    region: spec_fn(int, int) -> bool,
    ok: spec_fn(Seq<u8>) -> bool,
)
    requires
        scale >= 0,
        label_scale >= 0,
        ok(color),
        ok(MUTED@),
        forall|a: int, b: int| a >= x && b >= y ==> #[trigger] region(a, b),
    ensures
        steps_inside(summary_cell_draws(x, y, w, val, label, color, scale, label_scale), region, ok),
{
    let ds = summary_cell_draws(x, y, w, val, label, color, scale, label_scale);
    let vx = center_x(x, w, crate::canvas::text_width(val.len() as int, scale));
    let lx = center_x(x, w, crate::canvas::text_width(label.len() as int, label_scale));
    assert(vx >= x && lx >= x);
    lemma_label_inside(vx, y, val, color, scale, region, ok);
    lemma_label_inside(lx, y + 7 * scale + 3, label, MUTED@, label_scale, region, ok);
    assert forall|i: int| 0 <= i < ds.len() implies #[trigger] step_inside(ds[i], region, ok) by {
        assert(i == 0 || i == 1);
    }
}

// ---------------------------------------------------------------------------
// The dashboard
// ---------------------------------------------------------------------------

proof fn lemma_titled_inside(
    pad: int,
    y: int,
    h: int,
    ts: int,
    title: Seq<char>,
    y0: int,
    region: spec_fn(int, int) -> bool,
    ok: spec_fn(Seq<u8>) -> bool,
)
    requires
        ts >= 1,
        y >= y0,
        ok(MUTED@),
        forall|a: int, b: int| b >= y0 ==> #[trigger] region(a, b),
    ensures
        steps_inside(titled(pad, y, h, ts, title).0, region, ok),
        titled(pad, y, h, ts, title).1 >= y,
{
    let t = titled(pad, y, h, ts, title);
    if y + line_height(ts) < h {
        lemma_label_inside(pad, y, title, MUTED@, ts, region, ok);
        assert forall|i: int| 0 <= i < t.0.len() implies #[trigger] step_inside(t.0[i], region, ok) by {
        }
    }
}

proof fn lemma_bar_row_inside(
    pad: int,
    y: int,
    iw: int,
    h: int,
    ts: int,
    label: Seq<char>,
    count: u32,
    total: u32,
    color: Seq<u8>,
    y0: int,
    region: spec_fn(int, int) -> bool,
    ok: spec_fn(Seq<u8>) -> bool,
)
    requires
        ts >= 1,
        y >= y0,
        ok(TEXT@),
        ok(SLATE@),
        ok(MUTED@),
        count == 0 || ok(color),
        forall|a: int, b: int| b >= y0 ==> #[trigger] region(a, b),
    ensures
        steps_inside(bar_row(pad, y, iw, h, ts, label, count, total, color).0, region, ok),
        bar_row(pad, y, iw, h, ts, label, count, total, color).1 >= y,
{
    if y < h {
        lemma_stat_bar_inside(pad, y, iw, label, count, total, color, ts, region, ok);
    }
}

proof fn lemma_four_rows_inside(
    pad: int,
    y: int,
    iw: int,
    h: int,
    ts: int,
    title: Seq<char>,
    labels: Seq<Seq<char>>,
    counts: Seq<u32>,
    colors: Seq<Seq<u8>>,
    y0: int,
    region: spec_fn(int, int) -> bool,
    ok: spec_fn(Seq<u8>) -> bool,
)
    requires
        ts >= 1,
        y >= y0,
        labels.len() == 4,
        counts.len() == 4,
        colors.len() == 4,
        ok(TEXT@),
        ok(SLATE@),
        ok(MUTED@),
        forall|j: int| 0 <= j < 4 ==> counts[j] == 0 || ok(#[trigger] colors[j]),
        forall|a: int, b: int| b >= y0 ==> #[trigger] region(a, b),
    ensures
        steps_inside(four_rows(pad, y, iw, h, ts, title, labels, counts, colors).0, region, ok),
        four_rows(pad, y, iw, h, ts, title, labels, counts, colors).1 >= y,
{
    let t = titled(pad, y, h, ts, title);
    let sum = counts[0] + counts[1] + counts[2] + counts[3];
    let total = imax(sum, 1) as u32;
    let r1 = bar_row(pad, t.1, iw, h, ts, labels[0], counts[0], total, colors[0]);
    let r2 = bar_row(pad, r1.1, iw, h, ts, labels[1], counts[1], total, colors[1]);
    let r3 = bar_row(pad, r2.1, iw, h, ts, labels[2], counts[2], total, colors[2]);
    let r4 = bar_row(pad, r3.1, iw, h, ts, labels[3], counts[3], total, colors[3]);
    assert(counts[0] == 0 || ok(colors[0]));
    assert(counts[1] == 0 || ok(colors[1]));
    assert(counts[2] == 0 || ok(colors[2]));
    assert(counts[3] == 0 || ok(colors[3]));
    lemma_titled_inside(pad, y, h, ts, title, y0, region, ok);
    lemma_bar_row_inside(pad, t.1, iw, h, ts, labels[0], counts[0], total, colors[0], y0, region, ok);
    lemma_bar_row_inside(pad, r1.1, iw, h, ts, labels[1], counts[1], total, colors[1], y0, region, ok);
    lemma_bar_row_inside(pad, r2.1, iw, h, ts, labels[2], counts[2], total, colors[2], y0, region, ok);
    lemma_bar_row_inside(pad, r3.1, iw, h, ts, labels[3], counts[3], total, colors[3], y0, region, ok);
    lemma_steps_concat(t.0, r1.0, region, ok);
    lemma_steps_concat(t.0 + r1.0, r2.0, region, ok);
    lemma_steps_concat(t.0 + r1.0 + r2.0, r3.0, region, ok);
    lemma_steps_concat(t.0 + r1.0 + r2.0 + r3.0, r4.0, region, ok);
}

proof fn lemma_project_rows_inside(
    pad: int,
    y: int,
    iw: int,
    h: int,
    ts: int,
    ps: Seq<(Seq<char>, u32)>,
    pm: u32,
    y0: int,
    region: spec_fn(int, int) -> bool,
    ok: spec_fn(Seq<u8>) -> bool,
)
    requires
        ts >= 1,
        y >= y0,
        ok(TEXT@),
        ok(SLATE@),
        ok(MUTED@),
        ok(BLUE@),
        forall|a: int, b: int| b >= y0 ==> #[trigger] region(a, b),
    ensures
        steps_inside(project_rows(pad, y, iw, h, ts, ps, pm), region, ok),
    decreases ps.len(),
{
    if !(ps.len() == 0 || y + line_height(ts) > h) {
        lemma_stat_bar_inside(pad, y, iw, ps[0].0, ps[0].1, pm, BLUE@, ts, region, ok);
        lemma_project_rows_inside(pad, y + 7 * ts + 4, iw, h, ts, ps.drop_first(), pm, y0, region, ok);
        lemma_steps_concat(
            stat_bar_draws(pad, y, iw, ps[0].0, ps[0].1, pm, BLUE@, ts),
            project_rows(pad, y + 7 * ts + 4, iw, h, ts, ps.drop_first(), pm),
            region,
            ok,
        );
    }
}

/// The steps of the dashboard paint only at or below the top margin, in
/// colours that `ok` accepts, where `ok` accepts the colours of the texts,
/// the separator and the bars, green, and red where a count shown in red is
/// not zero.
proof fn lemma_dashboard_inside(
    w: u32,
    h: u32,
    st: StatsView,
    region: spec_fn(int, int) -> bool,
    ok: spec_fn(Seq<u8>) -> bool,
)
    requires
        ok(TEXT@),
        ok(MUTED@),
        ok(BORDER@),
        ok(SLATE@),
        ok(BLUE@),
        ok(YELLOW@),
        ok(GREEN@),
        ok(ORANGE@),
        st.overdue == 0 || ok(RED@),
        st.urgent == 0 || ok(RED@),
        forall|a: int, b: int| b >= pad_for(wrap_i32(w)) ==> #[trigger] region(a, b),
    ensures
        steps_inside(dashboard(w, h, st), region, ok),
{
    let wi = wrap_i32(w);
    let pad = pad_for(wi);
    let iw = inner_width(w);
    if iw >= 30 {
        let ts = text_scale(iw);
        let y1 = pad + line_height(ts) + 6;
        let hd = header_draws(pad, iw, ts);
        let sm = summary_draws(pad, y1, iw, ts, st);
        lemma_label_inside(pad, pad, hd[0]->Label_2, MUTED@, ts, region, ok);
        assert forall|i: int| 0 <= i < hd.len() implies #[trigger] step_inside(hd[i], region, ok) by {
            assert(i == 0 || i == 1);
        }
        if iw >= 90 {
            let col_w = iw / 3;
            let vs = value_scale(col_w);
            let ov_color = if st.overdue > 0 {
                RED@
            } else {
                GREEN@
            };
            let c1 = summary_cell_draws(pad, y1, col_w, decimal(st.total as nat), "total"@, TEXT@, vs, ts);
            let c2 = summary_cell_draws(pad + col_w, y1, col_w, decimal(st.overdue as nat), "overdue"@, ov_color, vs, ts);
            let c3 = summary_cell_draws(pad + col_w * 2, y1, col_w, decimal(st.projects as nat), "projects"@, BLUE@, vs, ts);
            lemma_cell_inside(pad, y1, col_w, decimal(st.total as nat), "total"@, TEXT@, vs, ts, region, ok);
            lemma_cell_inside(pad + col_w, y1, col_w, decimal(st.overdue as nat), "overdue"@, ov_color, vs, ts, region, ok);
            lemma_cell_inside(pad + col_w * 2, y1, col_w, decimal(st.projects as nat), "projects"@, BLUE@, vs, ts, region, ok);
            lemma_steps_concat(c1, c2, region, ok);
            lemma_steps_concat(c1 + c2, c3, region, ok);
        } else {
            lemma_label_inside(pad, y1, sm[0]->Label_2, TEXT@, ts, region, ok);
            assert forall|i: int| 0 <= i < sm.len() implies #[trigger] step_inside(sm[i], region, ok) by {
            }
        }
        lemma_steps_concat(hd, sm, region, ok);
        let y2 = summary_end(y1, iw, ts);
        let hi = h as int;
        if !(iw < 50 || y2 >= hi) {
            let s1 = status_section(pad, y2, iw, hi, ts, st);
            let s2 = priority_section(pad, s1.1, iw, hi, ts, st);
            let s3 = projects_section(pad, s2.1, iw, hi, ts, st.by_project);
            lemma_four_rows_inside(
                pad,
                y2,
                iw,
                hi,
                ts,
                "Status"@,
                seq!["Todo"@, "In Progress"@, "Done"@, "Cancelled"@],
                seq![st.todo, st.in_prog, st.done, st.cancelled],
                seq![BLUE@, YELLOW@, GREEN@, SLATE@],
                pad,
                region,
                ok,
            );
            if s1.1 + line_height(ts) * 5 < hi {
                lemma_four_rows_inside(
                    pad,
                    s1.1,
                    iw,
                    hi,
                    ts,
                    "Priority"@,
                    seq!["Low"@, "Medium"@, "High"@, "Urgent"@],
                    seq![st.low, st.medium, st.high, st.urgent],
                    seq![SLATE@, BLUE@, ORANGE@, RED@],
                    pad,
                    region,
                    ok,
                );
            }
            assert(s2.1 >= pad);
            let ps = st.by_project;
            if ps.len() > 0 && s2.1 + line_height(ts) * 2 < hi {
                let t = titled(pad, s2.1, hi, ts, "Projects"@);
                let pm = if max_count(ps) >= 1 {
                    max_count(ps)
                } else {
                    1
                };
                lemma_titled_inside(pad, s2.1, hi, ts, "Projects"@, pad, region, ok);
                lemma_project_rows_inside(pad, t.1, iw, hi, ts, ps, pm, pad, region, ok);
                lemma_steps_concat(t.0, project_rows(pad, t.1, iw, hi, ts, ps, pm), region, ok);
            }
            lemma_steps_concat(hd + sm, s1.0, region, ok);
            lemma_steps_concat(hd + sm + s1.0, s2.0, region, ok);
            lemma_steps_concat(hd + sm + s1.0 + s2.0, s3, region, ok);
        }
    }
}

proof fn lemma_blank_pixel(w: nat, h: nat, k: int)
    requires
        0 <= k < w * h,
    ensures
        blank(w, h).len() == w * h * 4,
        4 * k + 4 <= blank(w, h).len(),
        pixel(blank(w, h), k) == BG@,
{
    assert forall|j: int| 0 <= j < 4 implies #[trigger] pixel(blank(w, h), k)[j] == BG@[j] by {
        lemma_fundamental_div_mod_converse(4 * k + j, 4, k, j);
    }
    assert(pixel(blank(w, h), k) =~= BG@);
}

/// Law: every pixel of the dashboard is one of its colours (background,
/// separator, the two text colours, green, blue, yellow, red, orange and
/// slate), each with full alpha.
pub proof fn law_render_palette(w: u32, h: u32, st: StatsView, k: int)
    requires
        0 <= k < w * h,
    ensures
        in_palette(pixel(apply_all(blank(w as nat, h as nat), w as int, dashboard(w, h, st)), k)),
        pixel(apply_all(blank(w as nat, h as nat), w as int, dashboard(w, h, st)), k)[3] == 255,
{
    let region = |a: int, b: int| true;
    let ok = |c: Seq<u8>| in_palette(c);
    lemma_dashboard_inside(w, h, st, region, ok);
    lemma_blank_pixel(w as nat, h as nat, k);
    lemma_apply_all_inside(blank(w as nat, h as nat), w as int, dashboard(w, h, st), region, ok, k);
}

/// Law: with no overdue and no urgent task, the dashboard has no red pixel.
pub proof fn law_render_no_red(w: u32, h: u32, st: StatsView, k: int)
    requires
        st.overdue == 0,
        st.urgent == 0,
        0 <= k < w * h,
    ensures
        pixel(apply_all(blank(w as nat, h as nat), w as int, dashboard(w, h, st)), k) != RED@,
{
    let region = |a: int, b: int| true;
    let ok = |c: Seq<u8>| in_palette(c) && c != RED@;
    assert(BG@ != RED@) by {
        assert(BG@[0] != RED@[0]);
    }
    assert(TEXT@ != RED@) by {
        assert(TEXT@[0] != RED@[0]);
    }
    assert(MUTED@ != RED@) by {
        assert(MUTED@[0] != RED@[0]);
    }
    assert(BORDER@ != RED@) by {
        assert(BORDER@[0] != RED@[0]);
    }
    assert(SLATE@ != RED@) by {
        assert(SLATE@[0] != RED@[0]);
    }
    assert(BLUE@ != RED@) by {
        assert(BLUE@[0] != RED@[0]);
    }
    assert(YELLOW@ != RED@) by {
        assert(YELLOW@[0] != RED@[0]);
    }
    assert(GREEN@ != RED@) by {
        assert(GREEN@[0] != RED@[0]);
    }
    assert(ORANGE@ != RED@) by {
        assert(ORANGE@[0] != RED@[0]);
    }
    lemma_dashboard_inside(w, h, st, region, ok);
    lemma_blank_pixel(w as nat, h as nat, k);
    lemma_apply_all_inside(blank(w as nat, h as nat), w as int, dashboard(w, h, st), region, ok, k);
}

/// Law: the rows above the top margin keep the background colour.
pub proof fn law_render_top_margin(w: u32, h: u32, st: StatsView, px: int, py: int)
    requires
        0 <= px < w,
        0 <= py < h,
        py < pad_for(wrap_i32(w)),
    ensures
        pixel(
            apply_all(blank(w as nat, h as nat), w as int, dashboard(w, h, st)),
            py * w + px,
        ) == BG@,
{
    let pad = pad_for(wrap_i32(w));
    let region = |a: int, b: int| b >= pad;
    let ok = |c: Seq<u8>| in_palette(c);
    let k = py * w + px;
    assert(0 <= k < w * h) by (nonlinear_arith)
        requires
            0 <= px < w,
            0 <= py < h,
            k == py * w + px,
    ;
    lemma_fundamental_div_mod_converse(k, w as int, py, px);
    lemma_dashboard_inside(w, h, st, region, ok);
    lemma_blank_pixel(w as nat, h as nat, k);
    lemma_apply_all_inside(blank(w as nat, h as nat), w as int, dashboard(w, h, st), region, ok, k);
}

} // verus!
