//! A 5x7 bitmap font.
//!
//! Each glyph is seven rows, top first; in a row byte, bit 4 is the leftmost
//! of the five columns. Characters without a glyph draw as blank.
use vstd::prelude::*;

verus! {

/// The rows of the glyph of `ch`.
pub open spec fn glyph_rows(ch: char) -> Seq<u8> {
    match ch {
        ' ' => seq![0x00u8, 0x00, 0x00, 0x00, 0x00, 0x00, 0x00],
        'A' => seq![0x0Eu8, 0x11, 0x11, 0x1F, 0x11, 0x11, 0x11],
        'B' => seq![0x1Eu8, 0x11, 0x11, 0x1E, 0x11, 0x11, 0x1E],
        'C' => seq![0x0Eu8, 0x11, 0x10, 0x10, 0x10, 0x11, 0x0E],
        'D' => seq![0x1Eu8, 0x09, 0x09, 0x09, 0x09, 0x09, 0x1E],
        'E' => seq![0x1Fu8, 0x10, 0x10, 0x1E, 0x10, 0x10, 0x1F],
        'F' => seq![0x1Fu8, 0x10, 0x10, 0x1E, 0x10, 0x10, 0x10],
        'G' => seq![0x0Eu8, 0x11, 0x10, 0x17, 0x11, 0x11, 0x0F],
        'H' => seq![0x11u8, 0x11, 0x11, 0x1F, 0x11, 0x11, 0x11],
        'I' => seq![0x0Eu8, 0x04, 0x04, 0x04, 0x04, 0x04, 0x0E],
        'J' => seq![0x07u8, 0x02, 0x02, 0x02, 0x02, 0x12, 0x0C],
        'K' => seq![0x11u8, 0x12, 0x14, 0x18, 0x14, 0x12, 0x11],
        'L' => seq![0x10u8, 0x10, 0x10, 0x10, 0x10, 0x10, 0x1F],
        'M' => seq![0x11u8, 0x1B, 0x15, 0x11, 0x11, 0x11, 0x11],
        'N' => seq![0x11u8, 0x19, 0x15, 0x13, 0x11, 0x11, 0x11],
        'O' => seq![0x0Eu8, 0x11, 0x11, 0x11, 0x11, 0x11, 0x0E],
        'P' => seq![0x1Eu8, 0x11, 0x11, 0x1E, 0x10, 0x10, 0x10],
        'Q' => seq![0x0Eu8, 0x11, 0x11, 0x11, 0x15, 0x12, 0x0D],
        'R' => seq![0x1Eu8, 0x11, 0x11, 0x1E, 0x14, 0x12, 0x11],
        'S' => seq![0x0Fu8, 0x10, 0x10, 0x0E, 0x01, 0x01, 0x1E],
        'T' => seq![0x1Fu8, 0x04, 0x04, 0x04, 0x04, 0x04, 0x04],
        'U' => seq![0x11u8, 0x11, 0x11, 0x11, 0x11, 0x11, 0x0E],
        'V' => seq![0x11u8, 0x11, 0x11, 0x11, 0x11, 0x0A, 0x04],
        'W' => seq![0x11u8, 0x11, 0x11, 0x15, 0x15, 0x1B, 0x11],
        'X' => seq![0x11u8, 0x11, 0x0A, 0x04, 0x0A, 0x11, 0x11],
        'Y' => seq![0x11u8, 0x11, 0x0A, 0x04, 0x04, 0x04, 0x04],
        'Z' => seq![0x1Fu8, 0x01, 0x02, 0x04, 0x08, 0x10, 0x1F],
        'a' => seq![0x00u8, 0x00, 0x0E, 0x01, 0x0F, 0x11, 0x0F],
        'b' => seq![0x10u8, 0x10, 0x1E, 0x11, 0x11, 0x11, 0x1E],
        'c' => seq![0x00u8, 0x00, 0x0E, 0x10, 0x10, 0x11, 0x0E],
        'd' => seq![0x01u8, 0x01, 0x0F, 0x11, 0x11, 0x11, 0x0F],
        'e' => seq![0x00u8, 0x00, 0x0E, 0x11, 0x1F, 0x10, 0x0E],
        'f' => seq![0x06u8, 0x09, 0x08, 0x1C, 0x08, 0x08, 0x08],
        'g' => seq![0x00u8, 0x0F, 0x11, 0x11, 0x0F, 0x01, 0x0E],
        'h' => seq![0x10u8, 0x10, 0x16, 0x19, 0x11, 0x11, 0x11],
        'i' => seq![0x04u8, 0x00, 0x0C, 0x04, 0x04, 0x04, 0x0E],
        'j' => seq![0x02u8, 0x00, 0x06, 0x02, 0x02, 0x12, 0x0C],
        'k' => seq![0x10u8, 0x10, 0x12, 0x14, 0x18, 0x14, 0x12],
        'l' => seq![0x0Cu8, 0x04, 0x04, 0x04, 0x04, 0x04, 0x0E],
        'm' => seq![0x00u8, 0x00, 0x1A, 0x15, 0x15, 0x11, 0x11],
        'n' => seq![0x00u8, 0x00, 0x16, 0x19, 0x11, 0x11, 0x11],
        'o' => seq![0x00u8, 0x00, 0x0E, 0x11, 0x11, 0x11, 0x0E],
        'p' => seq![0x00u8, 0x1E, 0x11, 0x11, 0x1E, 0x10, 0x10],
        'q' => seq![0x00u8, 0x0F, 0x11, 0x11, 0x0F, 0x01, 0x01],
        'r' => seq![0x00u8, 0x00, 0x16, 0x19, 0x10, 0x10, 0x10],
        's' => seq![0x00u8, 0x00, 0x0E, 0x10, 0x0E, 0x01, 0x1E],
        't' => seq![0x08u8, 0x08, 0x1C, 0x08, 0x08, 0x09, 0x06],
        'u' => seq![0x00u8, 0x00, 0x11, 0x11, 0x11, 0x13, 0x0D],
        'v' => seq![0x00u8, 0x00, 0x11, 0x11, 0x11, 0x0A, 0x04],
        'w' => seq![0x00u8, 0x00, 0x11, 0x15, 0x15, 0x15, 0x0A],
        'x' => seq![0x00u8, 0x00, 0x11, 0x0A, 0x04, 0x0A, 0x11],
        'y' => seq![0x00u8, 0x11, 0x11, 0x0F, 0x01, 0x11, 0x0E],
        'z' => seq![0x00u8, 0x00, 0x1F, 0x02, 0x04, 0x08, 0x1F],
        '0' => seq![0x0Eu8, 0x11, 0x13, 0x15, 0x19, 0x11, 0x0E],
        '1' => seq![0x04u8, 0x0C, 0x04, 0x04, 0x04, 0x04, 0x0E],
        '2' => seq![0x0Eu8, 0x11, 0x01, 0x06, 0x08, 0x10, 0x1F],
        '3' => seq![0x1Fu8, 0x02, 0x04, 0x06, 0x01, 0x11, 0x0E],
        '4' => seq![0x02u8, 0x06, 0x0A, 0x12, 0x1F, 0x02, 0x02],
        '5' => seq![0x1Fu8, 0x10, 0x1E, 0x01, 0x01, 0x11, 0x0E],
        '6' => seq![0x06u8, 0x08, 0x10, 0x1E, 0x11, 0x11, 0x0E],
        '7' => seq![0x1Fu8, 0x01, 0x02, 0x04, 0x08, 0x08, 0x08],
        '8' => seq![0x0Eu8, 0x11, 0x11, 0x0E, 0x11, 0x11, 0x0E],
        '9' => seq![0x0Eu8, 0x11, 0x11, 0x0F, 0x01, 0x02, 0x0C],
        ':' => seq![0x00u8, 0x04, 0x00, 0x00, 0x04, 0x00, 0x00],
        '-' => seq![0x00u8, 0x00, 0x00, 0x1F, 0x00, 0x00, 0x00],
        '/' => seq![0x01u8, 0x02, 0x02, 0x04, 0x08, 0x08, 0x10],
        '.' => seq![0x00u8, 0x00, 0x00, 0x00, 0x00, 0x00, 0x04],
        '%' => seq![0x19u8, 0x1A, 0x02, 0x04, 0x08, 0x0B, 0x13],
        _ => seq![0x00u8, 0x00, 0x00, 0x00, 0x00, 0x00, 0x00],
    }
}

/// Whether the glyph row `bits` has column `col` (0 = leftmost of 5) set.
pub open spec fn row_has_col(bits: u8, col: int) -> bool {
    0 <= col < 5 && bits & (1u8 << ((4 - col) as u8)) != 0
}

/// The glyph of `ch`: every character has one, blank when the font has none.
pub fn glyph(ch: char) -> (g: Option<[u8; 7]>)
    ensures
        g matches Some(rows) && rows@ == glyph_rows(ch),
{
    Some(match ch {
        ' ' => [0x00, 0x00, 0x00, 0x00, 0x00, 0x00, 0x00],
        'A' => [0x0E, 0x11, 0x11, 0x1F, 0x11, 0x11, 0x11],
        'B' => [0x1E, 0x11, 0x11, 0x1E, 0x11, 0x11, 0x1E],
        'C' => [0x0E, 0x11, 0x10, 0x10, 0x10, 0x11, 0x0E],
        'D' => [0x1E, 0x09, 0x09, 0x09, 0x09, 0x09, 0x1E],
        'E' => [0x1F, 0x10, 0x10, 0x1E, 0x10, 0x10, 0x1F],
        'F' => [0x1F, 0x10, 0x10, 0x1E, 0x10, 0x10, 0x10],
        'G' => [0x0E, 0x11, 0x10, 0x17, 0x11, 0x11, 0x0F],
        'H' => [0x11, 0x11, 0x11, 0x1F, 0x11, 0x11, 0x11],
        'I' => [0x0E, 0x04, 0x04, 0x04, 0x04, 0x04, 0x0E],
        'J' => [0x07, 0x02, 0x02, 0x02, 0x02, 0x12, 0x0C],
        'K' => [0x11, 0x12, 0x14, 0x18, 0x14, 0x12, 0x11],
        'L' => [0x10, 0x10, 0x10, 0x10, 0x10, 0x10, 0x1F],
        'M' => [0x11, 0x1B, 0x15, 0x11, 0x11, 0x11, 0x11],
        'N' => [0x11, 0x19, 0x15, 0x13, 0x11, 0x11, 0x11],
        'O' => [0x0E, 0x11, 0x11, 0x11, 0x11, 0x11, 0x0E],
        'P' => [0x1E, 0x11, 0x11, 0x1E, 0x10, 0x10, 0x10],
        'Q' => [0x0E, 0x11, 0x11, 0x11, 0x15, 0x12, 0x0D],
        'R' => [0x1E, 0x11, 0x11, 0x1E, 0x14, 0x12, 0x11],
        'S' => [0x0F, 0x10, 0x10, 0x0E, 0x01, 0x01, 0x1E],
        'T' => [0x1F, 0x04, 0x04, 0x04, 0x04, 0x04, 0x04],
        'U' => [0x11, 0x11, 0x11, 0x11, 0x11, 0x11, 0x0E],
        'V' => [0x11, 0x11, 0x11, 0x11, 0x11, 0x0A, 0x04],
        'W' => [0x11, 0x11, 0x11, 0x15, 0x15, 0x1B, 0x11],
        'X' => [0x11, 0x11, 0x0A, 0x04, 0x0A, 0x11, 0x11],
        'Y' => [0x11, 0x11, 0x0A, 0x04, 0x04, 0x04, 0x04],
        'Z' => [0x1F, 0x01, 0x02, 0x04, 0x08, 0x10, 0x1F],
        'a' => [0x00, 0x00, 0x0E, 0x01, 0x0F, 0x11, 0x0F],
        'b' => [0x10, 0x10, 0x1E, 0x11, 0x11, 0x11, 0x1E],
        'c' => [0x00, 0x00, 0x0E, 0x10, 0x10, 0x11, 0x0E],
        'd' => [0x01, 0x01, 0x0F, 0x11, 0x11, 0x11, 0x0F],
        'e' => [0x00, 0x00, 0x0E, 0x11, 0x1F, 0x10, 0x0E],
        'f' => [0x06, 0x09, 0x08, 0x1C, 0x08, 0x08, 0x08],
        'g' => [0x00, 0x0F, 0x11, 0x11, 0x0F, 0x01, 0x0E],
        'h' => [0x10, 0x10, 0x16, 0x19, 0x11, 0x11, 0x11],
        'i' => [0x04, 0x00, 0x0C, 0x04, 0x04, 0x04, 0x0E],
        'j' => [0x02, 0x00, 0x06, 0x02, 0x02, 0x12, 0x0C],
        'k' => [0x10, 0x10, 0x12, 0x14, 0x18, 0x14, 0x12],
        'l' => [0x0C, 0x04, 0x04, 0x04, 0x04, 0x04, 0x0E],
        'm' => [0x00, 0x00, 0x1A, 0x15, 0x15, 0x11, 0x11],
        'n' => [0x00, 0x00, 0x16, 0x19, 0x11, 0x11, 0x11],
        'o' => [0x00, 0x00, 0x0E, 0x11, 0x11, 0x11, 0x0E],
        'p' => [0x00, 0x1E, 0x11, 0x11, 0x1E, 0x10, 0x10],
        'q' => [0x00, 0x0F, 0x11, 0x11, 0x0F, 0x01, 0x01],
        'r' => [0x00, 0x00, 0x16, 0x19, 0x10, 0x10, 0x10],
        's' => [0x00, 0x00, 0x0E, 0x10, 0x0E, 0x01, 0x1E],
        't' => [0x08, 0x08, 0x1C, 0x08, 0x08, 0x09, 0x06],
        'u' => [0x00, 0x00, 0x11, 0x11, 0x11, 0x13, 0x0D],
        'v' => [0x00, 0x00, 0x11, 0x11, 0x11, 0x0A, 0x04],
        'w' => [0x00, 0x00, 0x11, 0x15, 0x15, 0x15, 0x0A],
        'x' => [0x00, 0x00, 0x11, 0x0A, 0x04, 0x0A, 0x11],
        'y' => [0x00, 0x11, 0x11, 0x0F, 0x01, 0x11, 0x0E],
        'z' => [0x00, 0x00, 0x1F, 0x02, 0x04, 0x08, 0x1F],
        '0' => [0x0E, 0x11, 0x13, 0x15, 0x19, 0x11, 0x0E],
        '1' => [0x04, 0x0C, 0x04, 0x04, 0x04, 0x04, 0x0E],
        '2' => [0x0E, 0x11, 0x01, 0x06, 0x08, 0x10, 0x1F],
        '3' => [0x1F, 0x02, 0x04, 0x06, 0x01, 0x11, 0x0E],
        '4' => [0x02, 0x06, 0x0A, 0x12, 0x1F, 0x02, 0x02],
        '5' => [0x1F, 0x10, 0x1E, 0x01, 0x01, 0x11, 0x0E],
        '6' => [0x06, 0x08, 0x10, 0x1E, 0x11, 0x11, 0x0E],
        '7' => [0x1F, 0x01, 0x02, 0x04, 0x08, 0x08, 0x08],
        '8' => [0x0E, 0x11, 0x11, 0x0E, 0x11, 0x11, 0x0E],
        '9' => [0x0E, 0x11, 0x11, 0x0F, 0x01, 0x02, 0x0C],
        ':' => [0x00, 0x04, 0x00, 0x00, 0x04, 0x00, 0x00],
        '-' => [0x00, 0x00, 0x00, 0x1F, 0x00, 0x00, 0x00],
        '/' => [0x01, 0x02, 0x02, 0x04, 0x08, 0x08, 0x10],
        '.' => [0x00, 0x00, 0x00, 0x00, 0x00, 0x00, 0x04],
        '%' => [0x19, 0x1A, 0x02, 0x04, 0x08, 0x0B, 0x13],
        _ => [0x00, 0x00, 0x00, 0x00, 0x00, 0x00, 0x00],
    })
}

/// Law: the letters are drawn as these bitmaps (rows top first, bit 4 the
/// leftmost column), capitals and small letters alike.
pub proof fn law_letter_bitmaps()
    ensures
        glyph_rows('A') =~= seq![0x0Eu8, 0x11, 0x11, 0x1F, 0x11, 0x11, 0x11],
        glyph_rows('B') =~= seq![0x1Eu8, 0x11, 0x11, 0x1E, 0x11, 0x11, 0x1E],
        glyph_rows('C') =~= seq![0x0Eu8, 0x11, 0x10, 0x10, 0x10, 0x11, 0x0E],
        glyph_rows('D') =~= seq![0x1Eu8, 0x09, 0x09, 0x09, 0x09, 0x09, 0x1E],
        glyph_rows('E') =~= seq![0x1Fu8, 0x10, 0x10, 0x1E, 0x10, 0x10, 0x1F],
        glyph_rows('F') =~= seq![0x1Fu8, 0x10, 0x10, 0x1E, 0x10, 0x10, 0x10],
        glyph_rows('G') =~= seq![0x0Eu8, 0x11, 0x10, 0x17, 0x11, 0x11, 0x0F],
        glyph_rows('H') =~= seq![0x11u8, 0x11, 0x11, 0x1F, 0x11, 0x11, 0x11],
        glyph_rows('I') =~= seq![0x0Eu8, 0x04, 0x04, 0x04, 0x04, 0x04, 0x0E],
        glyph_rows('J') =~= seq![0x07u8, 0x02, 0x02, 0x02, 0x02, 0x12, 0x0C],
        glyph_rows('K') =~= seq![0x11u8, 0x12, 0x14, 0x18, 0x14, 0x12, 0x11],
        glyph_rows('L') =~= seq![0x10u8, 0x10, 0x10, 0x10, 0x10, 0x10, 0x1F],
        glyph_rows('M') =~= seq![0x11u8, 0x1B, 0x15, 0x11, 0x11, 0x11, 0x11],
        glyph_rows('N') =~= seq![0x11u8, 0x19, 0x15, 0x13, 0x11, 0x11, 0x11],
        glyph_rows('O') =~= seq![0x0Eu8, 0x11, 0x11, 0x11, 0x11, 0x11, 0x0E],
        glyph_rows('P') =~= seq![0x1Eu8, 0x11, 0x11, 0x1E, 0x10, 0x10, 0x10],
        glyph_rows('Q') =~= seq![0x0Eu8, 0x11, 0x11, 0x11, 0x15, 0x12, 0x0D],
        glyph_rows('R') =~= seq![0x1Eu8, 0x11, 0x11, 0x1E, 0x14, 0x12, 0x11],
        glyph_rows('S') =~= seq![0x0Fu8, 0x10, 0x10, 0x0E, 0x01, 0x01, 0x1E],
        glyph_rows('T') =~= seq![0x1Fu8, 0x04, 0x04, 0x04, 0x04, 0x04, 0x04],
        glyph_rows('U') =~= seq![0x11u8, 0x11, 0x11, 0x11, 0x11, 0x11, 0x0E],
        glyph_rows('V') =~= seq![0x11u8, 0x11, 0x11, 0x11, 0x11, 0x0A, 0x04],
        glyph_rows('W') =~= seq![0x11u8, 0x11, 0x11, 0x15, 0x15, 0x1B, 0x11],
        glyph_rows('X') =~= seq![0x11u8, 0x11, 0x0A, 0x04, 0x0A, 0x11, 0x11],
        glyph_rows('Y') =~= seq![0x11u8, 0x11, 0x0A, 0x04, 0x04, 0x04, 0x04],
        glyph_rows('Z') =~= seq![0x1Fu8, 0x01, 0x02, 0x04, 0x08, 0x10, 0x1F],
        glyph_rows('a') =~= seq![0x00u8, 0x00, 0x0E, 0x01, 0x0F, 0x11, 0x0F],
        glyph_rows('b') =~= seq![0x10u8, 0x10, 0x1E, 0x11, 0x11, 0x11, 0x1E],
        glyph_rows('c') =~= seq![0x00u8, 0x00, 0x0E, 0x10, 0x10, 0x11, 0x0E],
        glyph_rows('d') =~= seq![0x01u8, 0x01, 0x0F, 0x11, 0x11, 0x11, 0x0F],
        glyph_rows('e') =~= seq![0x00u8, 0x00, 0x0E, 0x11, 0x1F, 0x10, 0x0E],
        glyph_rows('f') =~= seq![0x06u8, 0x09, 0x08, 0x1C, 0x08, 0x08, 0x08],
        glyph_rows('g') =~= seq![0x00u8, 0x0F, 0x11, 0x11, 0x0F, 0x01, 0x0E],
        glyph_rows('h') =~= seq![0x10u8, 0x10, 0x16, 0x19, 0x11, 0x11, 0x11],
        glyph_rows('i') =~= seq![0x04u8, 0x00, 0x0C, 0x04, 0x04, 0x04, 0x0E],
        glyph_rows('j') =~= seq![0x02u8, 0x00, 0x06, 0x02, 0x02, 0x12, 0x0C],
        glyph_rows('k') =~= seq![0x10u8, 0x10, 0x12, 0x14, 0x18, 0x14, 0x12],
        glyph_rows('l') =~= seq![0x0Cu8, 0x04, 0x04, 0x04, 0x04, 0x04, 0x0E],
        glyph_rows('m') =~= seq![0x00u8, 0x00, 0x1A, 0x15, 0x15, 0x11, 0x11],
        glyph_rows('n') =~= seq![0x00u8, 0x00, 0x16, 0x19, 0x11, 0x11, 0x11],
        glyph_rows('o') =~= seq![0x00u8, 0x00, 0x0E, 0x11, 0x11, 0x11, 0x0E],
        glyph_rows('p') =~= seq![0x00u8, 0x1E, 0x11, 0x11, 0x1E, 0x10, 0x10],
        glyph_rows('q') =~= seq![0x00u8, 0x0F, 0x11, 0x11, 0x0F, 0x01, 0x01],
        glyph_rows('r') =~= seq![0x00u8, 0x00, 0x16, 0x19, 0x10, 0x10, 0x10],
        glyph_rows('s') =~= seq![0x00u8, 0x00, 0x0E, 0x10, 0x0E, 0x01, 0x1E],
        glyph_rows('t') =~= seq![0x08u8, 0x08, 0x1C, 0x08, 0x08, 0x09, 0x06],
        glyph_rows('u') =~= seq![0x00u8, 0x00, 0x11, 0x11, 0x11, 0x13, 0x0D],
        glyph_rows('v') =~= seq![0x00u8, 0x00, 0x11, 0x11, 0x11, 0x0A, 0x04],
        glyph_rows('w') =~= seq![0x00u8, 0x00, 0x11, 0x15, 0x15, 0x15, 0x0A],
        glyph_rows('x') =~= seq![0x00u8, 0x00, 0x11, 0x0A, 0x04, 0x0A, 0x11],
        glyph_rows('y') =~= seq![0x00u8, 0x11, 0x11, 0x0F, 0x01, 0x11, 0x0E],
        glyph_rows('z') =~= seq![0x00u8, 0x00, 0x1F, 0x02, 0x04, 0x08, 0x1F],
{
}

/// Law: the space and the marks `:`, `-`, `/`, `.` and `%` are drawn as
/// these bitmaps (rows top first, bit 4 the leftmost column).
pub proof fn law_mark_bitmaps()
    ensures
        glyph_rows(' ') =~= seq![0x00u8, 0x00, 0x00, 0x00, 0x00, 0x00, 0x00],
        glyph_rows(':') =~= seq![0x00u8, 0x04, 0x00, 0x00, 0x04, 0x00, 0x00],
        glyph_rows('-') =~= seq![0x00u8, 0x00, 0x00, 0x1F, 0x00, 0x00, 0x00],
        glyph_rows('/') =~= seq![0x01u8, 0x02, 0x02, 0x04, 0x08, 0x08, 0x10],
        glyph_rows('.') =~= seq![0x00u8, 0x00, 0x00, 0x00, 0x00, 0x00, 0x04],
        glyph_rows('%') =~= seq![0x19u8, 0x1A, 0x02, 0x04, 0x08, 0x0B, 0x13],
{
}

/// Law: the digits are drawn as these bitmaps (rows top first, bit 4 the
/// leftmost column). The 6, for one, is
///
/// ```text
/// . . # # .
/// . # . . .
/// # . . . .
/// # # # # .
/// # . . . #
/// # . . . #
/// . # # # .
/// ```
///
/// and the 9 is the same shape turned upside down, opening downward.
pub proof fn law_digit_bitmaps()
    ensures
        glyph_rows('0') =~= seq![0x0Eu8, 0x11, 0x13, 0x15, 0x19, 0x11, 0x0E],
        glyph_rows('1') =~= seq![0x04u8, 0x0C, 0x04, 0x04, 0x04, 0x04, 0x0E],
        glyph_rows('2') =~= seq![0x0Eu8, 0x11, 0x01, 0x06, 0x08, 0x10, 0x1F],
        glyph_rows('3') =~= seq![0x1Fu8, 0x02, 0x04, 0x06, 0x01, 0x11, 0x0E],
        glyph_rows('4') =~= seq![0x02u8, 0x06, 0x0A, 0x12, 0x1F, 0x02, 0x02],
        glyph_rows('5') =~= seq![0x1Fu8, 0x10, 0x1E, 0x01, 0x01, 0x11, 0x0E],
        glyph_rows('6') =~= seq![0x06u8, 0x08, 0x10, 0x1E, 0x11, 0x11, 0x0E],
        glyph_rows('7') =~= seq![0x1Fu8, 0x01, 0x02, 0x04, 0x08, 0x08, 0x08],
        glyph_rows('8') =~= seq![0x0Eu8, 0x11, 0x11, 0x0E, 0x11, 0x11, 0x0E],
        glyph_rows('9') =~= seq![0x0Eu8, 0x11, 0x11, 0x0F, 0x01, 0x02, 0x0C],
{
}

/// Law: every glyph has seven rows.
pub proof fn law_glyph_shape(ch: char)
    ensures
        glyph_rows(ch).len() == 7,
{
}

} // verus!
