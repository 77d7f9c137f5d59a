use lockstep_video::buffer::{test_pattern, BltPixel};
use lockstep_video::container::{reserve_payload, stream_prefix};
use lockstep_video::text::{
    begin_text, end_text, glyph_index, glyph_pixel, place_char, GlyphCell, TextCursor,
};

#[test]
fn glyph_index_keeps_the_low_seven_bits() {
    assert_eq!(glyph_index('A'), 65);
    assert_eq!(glyph_index('\0'), 0);
    assert_eq!(glyph_index('\u{7f}'), 127);
    assert_eq!(glyph_index('\u{80}'), 0);
    assert_eq!(glyph_index('é'), 0x69);
    assert_eq!(glyph_index('何'), 0x4F55 & 0x7F);
}

#[test]
fn glyph_pixel_reads_the_row_from_its_highest_bit() {
    assert!(glyph_pixel(0b1000_0000, 0));
    assert!(!glyph_pixel(0b1000_0000, 1));
    assert!(glyph_pixel(0b0000_0001, 7));
    assert!(!glyph_pixel(0b0000_0001, 6));
    assert!(glyph_pixel(0b0010_0000, 2));
    for col in 0..8 {
        assert!(glyph_pixel(0xFF, col));
        assert!(!glyph_pixel(0x00, col));
    }
}

#[test]
fn characters_advance_by_one_glyph() {
    let mut cursor = TextCursor { x: 0, top: 32 };
    assert_eq!(place_char(&mut cursor, 'H', 100), Some(GlyphCell { glyph: 72, x: 0, y: 32 }));
    assert_eq!(cursor, TextCursor { x: 8, top: 32 });
    assert_eq!(place_char(&mut cursor, 'i', 100), Some(GlyphCell { glyph: 105, x: 8, y: 32 }));
    assert_eq!(cursor, TextCursor { x: 16, top: 32 });
}

#[test]
fn line_feed_starts_the_next_line_and_draws_nothing() {
    let mut cursor = TextCursor { x: 40, top: 32 };
    assert_eq!(place_char(&mut cursor, '\n', 100), None);
    assert_eq!(cursor, TextCursor { x: 0, top: 48 });
}

#[test]
fn glyph_that_would_cross_the_edge_wraps() {
    let mut cursor = TextCursor { x: 16, top: 0 };
    assert_eq!(place_char(&mut cursor, 'a', 24), Some(GlyphCell { glyph: 97, x: 16, y: 0 }));
    assert_eq!(cursor, TextCursor { x: 24, top: 0 });
    assert_eq!(place_char(&mut cursor, 'b', 24), Some(GlyphCell { glyph: 98, x: 0, y: 16 }));
    assert_eq!(cursor, TextCursor { x: 8, top: 16 });
    // Too narrow for even one glyph: every character wraps.
    let mut narrow = TextCursor { x: 0, top: 0 };
    assert_eq!(place_char(&mut narrow, 'c', 7), Some(GlyphCell { glyph: 99, x: 0, y: 16 }));
    assert_eq!(narrow, TextCursor { x: 8, top: 16 });
}

#[test]
fn text_ends_eighteen_rows_down() {
    let mut cursor = TextCursor { x: 24, top: 16 };
    end_text(&mut cursor);
    assert_eq!(cursor, TextCursor { x: 24, top: 34 });
}

#[test]
fn text_starts_over_near_the_bottom() {
    let mut cursor = TextCursor { x: 24, top: 100 };
    begin_text(&mut cursor, 119);
    assert_eq!(cursor, TextCursor { x: 0, top: 100 });
    begin_text(&mut cursor, 118);
    assert_eq!(cursor, TextCursor { x: 0, top: 0 });
    let mut below = TextCursor { x: 3, top: 500 };
    begin_text(&mut below, 100);
    assert_eq!(below, TextCursor { x: 0, top: 0 });
    let mut top = TextCursor { x: 3, top: 0 };
    begin_text(&mut top, 0);
    assert_eq!(top, TextCursor { x: 0, top: 0 });
    let mut far = TextCursor { x: 3, top: usize::MAX };
    begin_text(&mut far, usize::MAX);
    assert_eq!(far, TextCursor { x: 0, top: 0 });
}

#[test]
fn stream_prefix_needs_all_four_bytes() {
    assert_eq!(stream_prefix(&[0x0A, 0, 0, 0], 4), Some(10));
    assert_eq!(stream_prefix(&[0x34, 0x12, 0, 0], 4), Some(0x1234));
    assert_eq!(stream_prefix(&[0x0A, 0, 0, 0], 3), None);
    assert_eq!(stream_prefix(&[0x0A, 0, 0, 0], 0), None);
    assert_eq!(stream_prefix(&[0, 0, 0, 1], 4), Some(0x0100_0000));
}

#[test]
fn reserve_payload_only_grows() {
    let mut buf = vec![1u8, 2];
    reserve_payload(&mut buf, 4);
    assert_eq!(buf, vec![1, 2, 0, 0]);
    reserve_payload(&mut buf, 3);
    assert_eq!(buf, vec![1, 2, 0, 0]);
    reserve_payload(&mut buf, 0);
    assert_eq!(buf.len(), 4);
}

#[test]
fn test_pattern_follows_column_row_and_their_sum() {
    let pixels = test_pattern(3, 2);
    assert_eq!(pixels.len(), 6);
    assert_eq!(pixels[0], BltPixel { red: 0, green: 0, blue: 0, reserved: 0 });
    assert_eq!(pixels[2], BltPixel { red: 2, green: 0, blue: 2, reserved: 0 });
    assert_eq!(pixels[4], BltPixel { red: 1, green: 1, blue: 2, reserved: 0 });
    assert_eq!(pixels[5], BltPixel { red: 2, green: 1, blue: 3, reserved: 0 });
    let wide = test_pattern(300, 2);
    assert_eq!(wide[299], BltPixel { red: 43, green: 0, blue: 43, reserved: 0 });
    assert_eq!(wide[300 + 255], BltPixel { red: 255, green: 1, blue: 0, reserved: 0 });
    assert!(test_pattern(0, 5).is_empty());
    assert!(test_pattern(5, 0).is_empty());
}
