//! A statistics dashboard renderer: parses the text report of a task
//! tracker, lays the figures out on an RGBA canvas with a small bitmap font,
//! and frames the pixels for a host that displays them.
pub mod chars;
pub mod report;
pub mod font;
pub mod fill;
pub mod canvas;
pub mod layout;
pub mod protocol;
pub mod regions;
