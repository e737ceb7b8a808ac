use mado_stats::chars::decimal_string;
use mado_stats::report::{parse_stats, parse_u32, report_from_output, strip_ansi, Stats};

#[test]
fn strip_ansi_removes_colour_codes() {
    assert_eq!(strip_ansi("\x1b[31mred\x1b[0m text"), "red text");
    assert_eq!(strip_ansi("\x1b[1;32mTotal tasks:\x1b[0m 12"), "Total tasks: 12");
}

#[test]
fn strip_ansi_keeps_plain_text() {
    assert_eq!(strip_ansi("no codes here"), "no codes here");
    assert_eq!(strip_ansi(""), "");
}

#[test]
fn strip_ansi_two_char_escape() {
    // ESC followed by a final byte other than '[' drops both.
    assert_eq!(strip_ansi("a\x1bMb"), "ab");
    // An unterminated sequence runs to the end of the text.
    assert_eq!(strip_ansi("ok\x1b[12;3"), "ok");
}

#[test]
fn strip_ansi_is_idempotent() {
    let once = strip_ansi("\x1b[2J\x1b[Hhello \x1b[7mworld\x1b[m");
    assert_eq!(once, "hello world");
    assert_eq!(strip_ansi(&once), once);
}

#[test]
fn parse_u32_takes_last_word() {
    assert_eq!(parse_u32("Total tasks: 42"), 42);
    assert_eq!(parse_u32("  Todo    7   "), 7);
    assert_eq!(parse_u32("Done\t13"), 13);
    assert_eq!(parse_u32("Overdue: +5"), 5);
}

#[test]
fn parse_u32_defaults_to_zero() {
    assert_eq!(parse_u32(""), 0);
    assert_eq!(parse_u32("   "), 0);
    assert_eq!(parse_u32("Projects: none"), 0);
    assert_eq!(parse_u32("Count: -3"), 0);
    assert_eq!(parse_u32("Count: 4294967296"), 0);
    assert_eq!(parse_u32("Count: 4294967295"), 4294967295);
    assert_eq!(parse_u32("12 apples"), 0);
}

#[test]
fn decimal_roundtrip() {
    for n in [0u32, 7, 10, 99, 12345, 4294967295] {
        let s = decimal_string(n);
        assert_eq!(s, n.to_string());
        assert_eq!(parse_u32(&s), n);
    }
}

const REPORT: &str = "\
Total tasks: 12
Overdue: 2
Projects: 3

By Status:
  Todo          5
  In progress   3
  Done          3
  Cancelled     1

By Priority:
  Low           4
  Medium        5
  High          2
  Urgent        1

By Project:
  home          6
  work stuff    4
  garden        2
";

#[test]
fn parse_stats_reads_all_figures() {
    let s = parse_stats(REPORT).unwrap();
    assert_eq!(s.total, 12);
    assert_eq!(s.overdue, 2);
    assert_eq!(s.projects, 3);
    assert_eq!(s.todo, 5);
    assert_eq!(s.in_prog, 3);
    assert_eq!(s.done, 3);
    assert_eq!(s.cancelled, 1);
    assert_eq!(s.low, 4);
    assert_eq!(s.medium, 5);
    assert_eq!(s.high, 2);
    assert_eq!(s.urgent, 1);
    assert_eq!(
        s.by_project,
        vec![
            ("home".to_string(), 6),
            ("work stuff".to_string(), 4),
            ("garden".to_string(), 2)
        ]
    );
}

#[test]
fn parse_stats_after_strip_ansi() {
    let coloured = "\x1b[1mTotal tasks:\x1b[0m 9\r\n\x1b[31mOverdue:\x1b[0m 1\r\n";
    let s = parse_stats(&strip_ansi(coloured)).unwrap();
    assert_eq!(s.total, 9);
    assert_eq!(s.overdue, 1);
}

#[test]
fn parse_stats_empty_text_gives_zeros() {
    let s = parse_stats("").unwrap();
    let d = Stats::default();
    assert_eq!(s.total, d.total);
    assert_eq!(s.urgent, 0);
    assert!(s.by_project.is_empty());
}

#[test]
fn parse_stats_blank_line_closes_project_section() {
    let s = parse_stats("By Project:\n  alpha 3\n\n  beta 4\n").unwrap();
    assert_eq!(s.by_project, vec![("alpha".to_string(), 3)]);
}

#[test]
fn parse_stats_project_lines_need_a_space_and_a_name() {
    let s = parse_stats("By Project:\nlonely\n  x   oops\n gamma 8").unwrap();
    assert_eq!(
        s.by_project,
        vec![("x".to_string(), 0), ("gamma".to_string(), 8)]
    );
}

#[test]
fn parse_stats_first_matching_rule_wins() {
    // "Todo" is tested before "Done": a line holding both sets todo.
    let s = parse_stats("Todo then Done 4").unwrap();
    assert_eq!(s.todo, 4);
    assert_eq!(s.done, 0);
    // Keyword lines are never project entries, even inside the section.
    let s = parse_stats("By Project:\n  High hopes 2").unwrap();
    assert_eq!(s.high, 2);
    assert!(s.by_project.is_empty());
}

#[test]
fn parse_stats_later_line_overrides() {
    let s = parse_stats("Total tasks: 1\nTotal tasks: 5").unwrap();
    assert_eq!(s.total, 5);
}

#[test]
fn project_names_are_trimmed() {
    let s = parse_stats("By Project:\n   spaced  name    3  \n\t tabbed\t 5").unwrap();
    assert_eq!(
        s.by_project,
        vec![("spaced  name".to_string(), 3), ("tabbed".to_string(), 5)]
    );
}

#[test]
fn strip_ansi_only_deletes_characters() {
    let input = "\x1b[1mA\x1b[0m b\x1b[31;1mc\x1bd";
    let out = strip_ansi(input);
    assert_eq!(out, "A bc");
    // Each kept character is found in the input in order.
    let mut rest = input.chars();
    for ch in out.chars() {
        assert!(rest.any(|c| c == ch));
    }
    assert!(out.chars().count() <= input.chars().count());
}

#[test]
fn report_from_output_reads_successful_output() {
    let bytes = b"\x1b[1mTotal tasks:\x1b[0m 9\nOverdue: 4\nBy Project:\n  home 2\n";
    let s = report_from_output(true, bytes).unwrap();
    assert_eq!(s.total, 9);
    assert_eq!(s.overdue, 4);
    assert_eq!(s.by_project, vec![("home".to_string(), 2)]);
    assert!(report_from_output(false, bytes).is_none());
}

#[test]
fn report_from_output_replaces_invalid_utf8() {
    // The invalid byte becomes U+FFFD inside the project name.
    let bytes = b"By Project:\n  w\xffk 3\n";
    let s = report_from_output(true, bytes).unwrap();
    assert_eq!(s.by_project, vec![("w\u{FFFD}k".to_string(), 3)]);
}
