use mado_stats::protocol::{apply_event, initial_size, refresh_due, send_frame, Event};

#[test]
fn frame_layout() {
    let mut out = Vec::new();
    send_frame(&mut out, 0x0102_0304, 2, &[9, 8, 7]);
    assert_eq!(
        out,
        vec![b'M', b'A', b'D', b'O', 4, 3, 2, 1, 2, 0, 0, 0, 9, 8, 7]
    );
}

#[test]
fn frame_appends() {
    let mut out = vec![1u8];
    send_frame(&mut out, 300, 400, &[]);
    assert_eq!(out.len(), 13);
    assert_eq!(&out[1..5], b"MADO");
    assert_eq!(u32::from_le_bytes([out[5], out[6], out[7], out[8]]), 300);
    assert_eq!(u32::from_le_bytes([out[9], out[10], out[11], out[12]]), 400);
}

fn ev(kind: &str, width: Option<u32>, height: Option<u32>) -> Event {
    Event { kind: kind.to_string(), width, height }
}

#[test]
fn resize_event_sets_size() {
    assert_eq!(ev("resize", Some(640), Some(480)).resize_size(), Some((640, 480)));
    assert_eq!(apply_event((300, 400), &ev("resize", Some(640), Some(480))), ((640, 480), true));
}

#[test]
fn other_events_keep_size() {
    assert_eq!(ev("resize", Some(640), None).resize_size(), None);
    assert_eq!(ev("Resize", Some(1), Some(1)).resize_size(), None);
    assert_eq!(apply_event((300, 400), &ev("focus", None, None)), ((300, 400), false));
}

#[test]
fn initial_size_and_refresh() {
    assert_eq!(initial_size(), (300, 400));
    assert!(!refresh_due(59));
    assert!(refresh_due(60));
    assert!(refresh_due(3600));
}
