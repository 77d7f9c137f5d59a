//! Layout of the debug text: where each character's glyph goes on the
//! screen and which of its pixels are lit. Glyphs are 8 pixels wide and 16
//! high; the font table itself and the drawing are the caller's.

use vstd::prelude::*;

verus! {

/// Width of a glyph cell in pixels.
pub const GLYPH_WIDTH: usize = 8;

/// Height of a glyph cell in pixels, and the distance between two lines of
/// one text.
pub const GLYPH_HEIGHT: usize = 16;

/// Distance left below the last line of a text.
pub const TEXT_GAP: usize = 18;

/// Number of glyphs in the font table.
pub const GLYPH_COUNT: usize = 128;

/// Where the next glyph goes.
#[derive(Clone, Copy, Debug, PartialEq, Eq)]
pub struct TextCursor {
    /// Left edge of the next glyph.
    pub x: usize,
    /// Top edge of the current line.
    pub top: usize,
}

/// A glyph and where its top-left pixel goes.
#[derive(Clone, Copy, Debug, PartialEq, Eq)]
pub struct GlyphCell {
    /// Index into the font table.
    pub glyph: usize,
    /// Left edge on the screen.
    pub x: usize,
    /// Top edge on the screen.
    pub y: usize,
}

/// The cursor at which a glyph is drawn when the cursor stands at `cursor`:
/// on a fresh line where the glyph would cross the right edge.
pub open spec fn wrapped(cursor: TextCursor, width: nat) -> TextCursor {
    if cursor.x + 8 > width {
        TextCursor { x: 0, top: (cursor.top + 16) as usize }
    } else {
        cursor
    }
}

/// The cursor after character `c`.
pub open spec fn cursor_after(cursor: TextCursor, c: char, width: nat) -> TextCursor {
    if c == '\n' {
        TextCursor { x: 0, top: (cursor.top + 16) as usize }
    } else {
        TextCursor { x: (wrapped(cursor, width).x + 8) as usize, top: wrapped(cursor, width).top }
    }
}

/// The font table entry for `c`: its code's low seven bits.
pub fn glyph_index(c: char) -> (index: usize)
    ensures
        index == ((c as u32) & 0x7F),
        index < GLYPH_COUNT,
{
    let code: u32 = c as u32;
    assert((code & 0x7F) < 128) by (bit_vector);
    (code & 0x7F) as usize
}

/// Whether pixel `col` of a glyph row is lit; column 0 is the leftmost
/// pixel and the row's highest bit.
pub fn glyph_pixel(row_bits: u8, col: u8) -> (lit: bool)
    requires
        col < 8,
    ensures
        lit == (((row_bits >> ((7 - col) as u8)) & 1) == 1),
{
    ((row_bits >> (7 - col)) & 1) == 1
}

/// Starts a text at the left edge. Where the text's first line would end
/// within 18 rows of the screen's bottom, the text starts over at the top.
pub fn begin_text(cursor: &mut TextCursor, height: usize)
    ensures
        final(cursor).x == 0,
        final(cursor).top == if old(cursor).top + 18 >= height {
            0
        } else {
            old(cursor).top
        },
{
    cursor.x = 0;
    if cursor.top >= height || height - cursor.top <= TEXT_GAP {
        cursor.top = 0;
    }
}

/// Takes in one character. A line feed moves to the start of the next line
/// and draws nothing. Any other character is drawn at the cursor, or at the
/// start of the next line where it would cross the right edge, and moves the
/// cursor one glyph to the right.
pub fn place_char(cursor: &mut TextCursor, c: char, width: usize) -> (cell: Option<GlyphCell>)
    requires
        old(cursor).x + 16 <= usize::MAX,
        old(cursor).top + 16 <= usize::MAX,
    ensures
        *final(cursor) == cursor_after(*old(cursor), c, width as nat),
        c == '\n' ==> cell is None,
        c != '\n' ==> cell == Some(
            GlyphCell {
                glyph: ((c as u32) & 0x7F) as usize,
                x: wrapped(*old(cursor), width as nat).x,
                y: wrapped(*old(cursor), width as nat).top,
            },
        ),
{
    if c == '\n' {
        cursor.x = 0;
        cursor.top = cursor.top + GLYPH_HEIGHT;
        return None;
    }
    if cursor.x + GLYPH_WIDTH > width {
        cursor.x = 0;
        cursor.top = cursor.top + GLYPH_HEIGHT;
    }
    let cell = GlyphCell { glyph: glyph_index(c), x: cursor.x, y: cursor.top };
    cursor.x = cursor.x + GLYPH_WIDTH;
    Some(cell)
}

/// Ends a text: the next one starts 18 rows further down.
pub fn end_text(cursor: &mut TextCursor)
    requires
        old(cursor).top + 18 <= usize::MAX,
    ensures
        final(cursor).x == old(cursor).x,
        final(cursor).top == old(cursor).top + 18,
{
    cursor.top = cursor.top + TEXT_GAP;
}

} // verus!
