use mado_stats::canvas::{Canvas, BG, SLATE};
use mado_stats::fill::fill_width;
use mado_stats::font::glyph;
use mado_stats::layout::{
    render, render_fits_check, stat_bar, summary_cell, try_render, BLUE, BORDER, GREEN, MUTED,
    ORANGE, RED, TEXT, YELLOW,
};
use mado_stats::report::{parse_stats, Stats};

fn pixel(px: &[u8], w: u32, x: u32, y: u32) -> [u8; 4] {
    let i = ((y * w + x) * 4) as usize;
    [px[i], px[i + 1], px[i + 2], px[i + 3]]
}

fn sample() -> Stats {
    parse_stats(
        "Total tasks: 12\nOverdue: 2\nProjects: 2\n\
         Todo 5\nIn progress 3\nDone 3\nCancelled 1\n\
         Low 4\nMedium 5\nHigh 2\nUrgent 1\n\
         By Project:\n  home 6\n  work 4\n",
    )
    .unwrap()
}

#[test]
fn glyph_table() {
    assert_eq!(glyph('A'), Some([0x0E, 0x11, 0x11, 0x1F, 0x11, 0x11, 0x11]));
    assert_eq!(glyph('%'), Some([0x19, 0x1A, 0x02, 0x04, 0x08, 0x0B, 0x13]));
    assert_eq!(glyph('~'), Some([0; 7]));
    assert_eq!(glyph(' '), Some([0; 7]));
}

#[test]
fn new_canvas_is_background() {
    let c = Canvas::new(3, 2);
    assert_eq!(c.pixels.len(), 3 * 2 * 4);
    for i in 0..6 {
        assert_eq!(&c.pixels[i * 4..i * 4 + 4], &BG);
    }
}

#[test]
fn set_inside_and_outside() {
    let mut c = Canvas::new(4, 3);
    c.set(2, 1, [1, 2, 3, 4]);
    assert_eq!(pixel(&c.pixels, 4, 2, 1), [1, 2, 3, 4]);
    let before = c.pixels.clone();
    c.set(-1, 0, [9, 9, 9, 9]);
    c.set(4, 0, [9, 9, 9, 9]);
    c.set(0, 3, [9, 9, 9, 9]);
    assert_eq!(c.pixels, before);
}

#[test]
fn rect_is_clipped() {
    let mut c = Canvas::new(4, 4);
    c.rect(2, 2, 5, 5, [7, 7, 7, 7]);
    for y in 0..4u32 {
        for x in 0..4u32 {
            let want = if x >= 2 && y >= 2 { [7, 7, 7, 7] } else { BG };
            assert_eq!(pixel(&c.pixels, 4, x, y), want);
        }
    }
}

#[test]
fn rect_twice_is_rect_once() {
    let mut a = Canvas::new(5, 5);
    a.rect(1, 1, 2, 3, [5, 6, 7, 8]);
    let once = a.pixels.clone();
    a.rect(1, 1, 2, 3, [5, 6, 7, 8]);
    assert_eq!(a.pixels, once);
}

#[test]
fn text_draws_glyph_dots() {
    let mut c = Canvas::new(12, 14);
    c.text(0, 0, "T", [1, 1, 1, 1], 2);
    // 'T' is 0x1F then 0x04 rows: the top row is full, below it only the middle column.
    for x in 0..10 {
        assert_eq!(pixel(&c.pixels, 12, x, 0), [1, 1, 1, 1]);
        assert_eq!(pixel(&c.pixels, 12, x, 1), [1, 1, 1, 1]);
    }
    assert_eq!(pixel(&c.pixels, 12, 10, 0), BG);
    assert_eq!(pixel(&c.pixels, 12, 4, 5), [1, 1, 1, 1]);
    assert_eq!(pixel(&c.pixels, 12, 5, 13), [1, 1, 1, 1]);
    assert_eq!(pixel(&c.pixels, 12, 3, 5), BG);
    assert_eq!(pixel(&c.pixels, 12, 6, 5), BG);
}

#[test]
fn text_width_counts_characters() {
    assert_eq!(Canvas::text_w("TASK STATS", 2), 120);
    assert_eq!(Canvas::text_w("", 3), 0);
    assert_eq!(Canvas::text_w("42", 1), 12);
}

#[test]
fn bar_fill_rounds_as_single_precision() {
    assert_eq!(fill_width(100, 1, 3), 33);
    assert_eq!(fill_width(100, 3, 3), 100);
    assert_eq!(fill_width(100, 5, 3), 100);
    // 13/22 and 7/23 round below their exact values in single precision.
    assert_eq!(fill_width(22, 13, 22), 12);
    assert_eq!(fill_width(23, 7, 23), 6);
    // A width above 2^24 is itself rounded to 24 bits first.
    assert_eq!(fill_width(16_777_219, 5, 5), 16_777_220);
    // Below 2^24 the fill stays within the bar.
    assert_eq!(fill_width(16_777_215, 16_777_214, 16_777_215), 16_777_214);
    assert_eq!(fill_width(10, 0, 5), 0);
    assert_eq!(fill_width(10, 4, 0), 10);
    assert_eq!(fill_width(10, 0, 0), 0);
    assert_eq!(fill_width(-5, 3, 4), 0);
}

#[test]
fn bar_draws_track_then_fill() {
    let mut c = Canvas::new(10, 1);
    c.bar(0, 0, 10, 1, 1, 2, [3, 3, 3, 3]);
    for x in 0..5 {
        assert_eq!(pixel(&c.pixels, 10, x, 0), [3, 3, 3, 3]);
    }
    for x in 5..10 {
        assert_eq!(pixel(&c.pixels, 10, x, 0), SLATE);
    }
}

#[test]
fn stat_bar_returns_next_row() {
    let mut c = Canvas::new(200, 40);
    let y = stat_bar(&mut c, 4, 10, 180, "Todo", 5, 10, BLUE, 1);
    assert_eq!(y, 10 + 7 + 4);
    // 'T' of the label at (4, 10).
    assert_eq!(pixel(&c.pixels, 200, 4, 10), TEXT);
}

#[test]
fn summary_cell_centres_value() {
    let mut c = Canvas::new(60, 30);
    // "7" at scale 1 is 6 wide: centred in 60 it starts at 27. Its top row is 0x1F.
    summary_cell(&mut c, 0, 0, 60, "7", "x", TEXT, 1, 1);
    assert_eq!(pixel(&c.pixels, 60, 27, 0), TEXT);
    assert_eq!(pixel(&c.pixels, 60, 26, 0), BG);
}

#[test]
fn render_has_frame_size() {
    let s = sample();
    for (w, h) in [(300u32, 400u32), (80, 60), (10, 10), (1000, 30), (0, 0)] {
        assert_eq!(render(w, h, &s).len(), (w * h * 4) as usize);
    }
}

#[test]
fn render_narrow_canvas_is_blank() {
    let s = sample();
    let px = render(37, 50, &s);
    assert_eq!(px, Canvas::new(37, 50).pixels);
}

#[test]
fn render_header_and_separator() {
    let s = sample();
    let px = render(300, 400, &s);
    // pad 15, inner width 270, text scale 2: "TASK STATS" at (15, 15); 'T' top row full.
    assert_eq!(pixel(&px, 300, 15, 15), MUTED);
    assert_eq!(pixel(&px, 300, 24, 16), MUTED);
    // Separator at y = 15 + 18 over x in 15..285.
    assert_eq!(pixel(&px, 300, 15, 33), BORDER);
    assert_eq!(pixel(&px, 300, 284, 33), BORDER);
    assert_eq!(pixel(&px, 300, 285, 33), BG);
    assert_eq!(pixel(&px, 300, 14, 33), BG);
}

#[test]
fn render_default_stats() {
    let px = render(300, 400, &Stats::default());
    assert_eq!(px.len(), 300 * 400 * 4);
    assert_eq!(pixel(&px, 300, 15, 33), BORDER);
}

#[test]
fn try_render_checks_bounds() {
    let s = sample();
    assert!(render_fits_check(300, 400, &s));
    assert_eq!(try_render(300, 400, &s), Some(render(300, 400, &s)));
    assert!(!render_fits_check(70000, 70000, &s));
    assert_eq!(try_render(70000, 70000, &s), None);
    let mut big = Stats::default();
    big.todo = u32::MAX;
    big.done = 1;
    assert!(!render_fits_check(300, 400, &big));
    // The sections are not drawn on a short canvas: the totals never add up.
    assert!(render_fits_check(300, 50, &big));
}

#[test]
fn overlapping_rects_paint_their_union() {
    let mut a = Canvas::new(6, 6);
    a.rect(0, 0, 4, 4, [2, 2, 2, 2]);
    a.rect(2, 2, 4, 4, [2, 2, 2, 2]);
    for y in 0..6u32 {
        for x in 0..6u32 {
            let inside = (x < 4 && y < 4) || (x >= 2 && y >= 2);
            let want = if inside { [2, 2, 2, 2] } else { BG };
            assert_eq!(pixel(&a.pixels, 6, x, y), want);
        }
    }
}

#[test]
fn text_stays_inside_its_box() {
    let mut c = Canvas::new(40, 30);
    c.text(3, 4, "W%8", [6, 6, 6, 6], 2);
    let tw = Canvas::text_w("W%8", 2) as u32;
    assert_eq!(tw, 36);
    // The last glyph ends 5 * scale after its pen position: 3 + 12 * 2 + 10.
    for y in 0..30u32 {
        for x in 0..40u32 {
            let inside = x >= 3 && x < 3 + 12 * 2 + 10 && y >= 4 && y < 4 + 14;
            if !inside {
                assert_eq!(pixel(&c.pixels, 40, x, y), BG);
            }
        }
    }
}

#[test]
fn bar_fill_grows_with_count() {
    for total in 1..20u32 {
        let mut last = 0;
        for count in 0..25u32 {
            let f = fill_width(37, count, total);
            assert!(f >= last && f <= 37);
            last = f;
        }
    }
}

#[test]
fn short_canvas_shows_header_and_summary_only() {
    let a = sample();
    let mut b = sample();
    b.todo = 0;
    b.low = 40;
    b.by_project.clear();
    // On a 300 by 50 canvas the summary ends below the bottom.
    assert_eq!(render(300, 50, &a), render(300, 50, &b));
    // On a taller one the sections differ.
    assert_ne!(render(300, 400, &a), render(300, 400, &b));
}

#[test]
fn blank_text_draws_nothing_at_the_edge() {
    let mut c = Canvas::new(8, 8);
    let before = c.pixels.clone();
    c.text(0, i32::MAX, " ", [1, 1, 1, 1], 1);
    c.text(0, i32::MAX, "~", [1, 1, 1, 1], 3);
    // '-' lights only its fourth row.
    c.text(0, i32::MAX - 3, "-", [1, 1, 1, 1], 1);
    c.text(0, 0, "ABC", [1, 1, 1, 1], 0);
    c.text(0, 0, "", [1, 1, 1, 1], 2);
    assert_eq!(c.pixels, before);
}

#[test]
fn text_of_joined_strings_is_text_then_text() {
    let mut a = Canvas::new(40, 12);
    a.text(1, 2, "A7", [4, 4, 4, 4], 1);
    a.text(1 + 6 * 2, 2, "x%", [4, 4, 4, 4], 1);
    let mut b = Canvas::new(40, 12);
    b.text(1, 2, "A7x%", [4, 4, 4, 4], 1);
    assert_eq!(a.pixels, b.pixels);
}

#[test]
fn stat_bar_changes_only_its_rows() {
    let mut c = Canvas::new(200, 60);
    let before = c.pixels.clone();
    let y = stat_bar(&mut c, 4, 20, 180, "Done", 3, 4, GREEN, 2);
    assert_eq!(y, 20 + 14 + 4);
    for py in 0..60u32 {
        if py < 20 || py >= 34 {
            for px in 0..200u32 {
                assert_eq!(pixel(&c.pixels, 200, px, py), pixel(&before, 200, px, py));
            }
        }
    }
}

#[test]
fn summary_cell_changes_only_right_and_below() {
    let mut c = Canvas::new(80, 40);
    summary_cell(&mut c, 10, 5, 60, "42", "total", ORANGE, 2, 1);
    let mut changed = 0;
    for py in 0..40u32 {
        for px in 0..80u32 {
            let p = pixel(&c.pixels, 80, px, py);
            if p != BG {
                changed += 1;
                assert!(px >= 10 && py >= 5);
                assert!(p == ORANGE || p == MUTED);
            }
        }
    }
    assert!(changed > 0);
}

#[test]
fn render_uses_only_the_palette() {
    let palette = [BG, BORDER, TEXT, MUTED, GREEN, BLUE, YELLOW, RED, ORANGE, SLATE];
    let s = sample();
    for (w, h) in [(300u32, 400u32), (120, 200), (1000, 700)] {
        let px = render(w, h, &s);
        for k in 0..(w * h) as usize {
            let p = [px[4 * k], px[4 * k + 1], px[4 * k + 2], px[4 * k + 3]];
            assert!(palette.contains(&p));
            assert_eq!(p[3], 255);
        }
    }
}

#[test]
fn render_without_overdue_or_urgent_has_no_red() {
    let mut s = sample();
    s.overdue = 0;
    s.urgent = 0;
    let px = render(300, 400, &s);
    for k in 0..300 * 400 {
        assert_ne!([px[4 * k], px[4 * k + 1], px[4 * k + 2], px[4 * k + 3]], RED);
    }
    // With overdue tasks the count shows in red.
    let red = render(300, 400, &sample());
    assert!((0..300 * 400).any(|k| [red[4 * k], red[4 * k + 1], red[4 * k + 2], red[4 * k + 3]] == RED));
}

#[test]
fn render_keeps_top_margin_blank() {
    let s = sample();
    // Width 300: the margin is 15 rows.
    let px = render(300, 400, &s);
    for py in 0..15u32 {
        for x in 0..300u32 {
            assert_eq!(pixel(&px, 300, x, py), BG);
        }
    }
    assert_eq!(pixel(&px, 300, 15, 15), MUTED);
}
