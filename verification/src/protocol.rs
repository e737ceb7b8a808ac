//! The host protocol: frames of RGBA pixels sent to the host, and the events
//! that the host sends back.
//!
//! A frame is the four bytes `MADO`, the width and the height as
//! little-endian `u32`, then the pixels. Events are JSON objects with a
//! `type` and, for a resize, the new `width` and `height`.
use vstd::prelude::*;
use crate::chars::{chars_of, string_of};

verus! {

/// The little-endian bytes of `v`.
pub open spec fn le_bytes(v: u32) -> Seq<u8> {
    seq![
        (v % 256) as u8,
        ((v / 256) % 256) as u8,
        ((v / 65536) % 256) as u8,
        (v / 16777216) as u8,
    ]
}

/// The number that four little-endian bytes denote.
pub open spec fn le_value(b: Seq<u8>) -> int {
    b[0] + 256 * b[1] + 65536 * b[2] + 16777216 * b[3]
}

/// The frame header magic, `MADO`.
pub open spec fn magic() -> Seq<u8> {
    seq![77u8, 65, 68, 79]
}

/// The bytes of a frame of `w` by `h` pixels.
pub open spec fn frame_bytes(w: u32, h: u32, pixels: Seq<u8>) -> Seq<u8> {
    magic() + le_bytes(w) + le_bytes(h) + pixels
}

fn push_le(out: &mut Vec<u8>, v: u32)
    ensures
        final(out)@ == old(out)@ + le_bytes(v),
{
    out.push((v % 256) as u8);
    out.push(((v / 256) % 256) as u8);
    out.push(((v / 65536) % 256) as u8);
    out.push((v / 16777216) as u8);
    assert(final(out)@ =~= old(out)@ + le_bytes(v));
}

/// Appends a frame of `w` by `h` pixels to the output buffer `out`.
pub fn send_frame(out: &mut Vec<u8>, w: u32, h: u32, pixels: &[u8])
    ensures
        final(out)@ == old(out)@ + frame_bytes(w, h, pixels@),
{
    let ghost start = out@;
    out.push(77u8);
    out.push(65u8);
    out.push(68u8);
    out.push(79u8);
    assert(out@ =~= start + magic());
    push_le(out, w);
    push_le(out, h);
    let mut i: usize = 0;
    let ghost head = out@;
    while i < pixels.len()
        invariant
            0 <= i <= pixels@.len(),
            out@ == head + pixels@.take(i as int),
        decreases pixels@.len() - i,
    {
        out.push(pixels[i]);
        i = i + 1;
        assert(out@ =~= head + pixels@.take(i as int));
    }
    assert(pixels@.take(i as int) =~= pixels@);
    assert(final(out)@ =~= start + frame_bytes(w, h, pixels@));
}

/// Law: the header of a frame gives back its size: bytes 4..8 hold the
/// width and bytes 8..12 the height, little-endian, and the pixels follow
/// from byte 12 on.
pub proof fn law_frame_header_roundtrip(w: u32, h: u32, pixels: Seq<u8>)
    ensures
        frame_bytes(w, h, pixels).len() == 12 + pixels.len(),
        frame_bytes(w, h, pixels).take(4) == magic(),
        le_value(frame_bytes(w, h, pixels).subrange(4, 8)) == w,
        le_value(frame_bytes(w, h, pixels).subrange(8, 12)) == h,
        frame_bytes(w, h, pixels).skip(12) == pixels,
{
    let f = frame_bytes(w, h, pixels);
    assert(f.take(4) =~= magic());
    assert(f.subrange(4, 8) =~= le_bytes(w));
    assert(f.subrange(8, 12) =~= le_bytes(h));
    assert(f.skip(12) =~= pixels);
}

// ---------------------------------------------------------------------------
// Events
// ---------------------------------------------------------------------------

/// An event from the host.
pub struct Event {
    /// The event's `type`.
    pub kind: String,
    pub width: Option<u32>,
    pub height: Option<u32>,
}

/// The size a resize event asks for: the event is of type `resize` and
/// carries both a width and a height.
pub open spec fn requested_size(kind: Seq<char>, width: Option<u32>, height: Option<u32>) -> Option<(u32, u32)> {
    if kind == "resize"@ && width is Some && height is Some {
        Some((width->0, height->0))
    } else {
        None
    }
}

impl Event {
    /// The new canvas size when this event is a complete resize event.
    pub fn resize_size(&self) -> (r: Option<(u32, u32)>)
        ensures
            r == requested_size(self.kind@, self.width, self.height),
    {
        let resize = string_of(&chars_of("resize"));
        if self.kind == resize {
            match (self.width, self.height) {
                (Some(w), Some(h)) => Some((w, h)),
                _ => None,
            }
        } else {
            None
        }
    }
}

/// The canvas size before the host reports one.
pub fn initial_size() -> (r: (u32, u32))
    ensures
        r == (300u32, 400u32),
{
    (300, 400)
}

/// How often, in seconds, the statistics are fetched again.
pub const REFRESH_SECS: u64 = 60;

/// Whether the statistics are due to be fetched again, `elapsed_secs`
/// whole seconds after the last fetch.
pub fn refresh_due(elapsed_secs: u64) -> (r: bool)
    ensures
        r == (elapsed_secs >= REFRESH_SECS),
{
    elapsed_secs >= REFRESH_SECS
}

/// The canvas size after an event: a complete resize event sets it, any
/// other event leaves it. The flag says whether to redraw at once.
pub fn apply_event(size: (u32, u32), ev: &Event) -> (r: ((u32, u32), bool))
    ensures
        r == (match requested_size(ev.kind@, ev.width, ev.height) {
            Some(s) => (s, true),
            None => (size, false),
        }),
{
    match ev.resize_size() {
        Some(s) => (s, true),
        None => (size, false),
    }
}

} // verus!
