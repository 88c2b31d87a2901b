use rusty_os::vga_buffer::{Color, ColorCode, Writer, BUFFER_HEIGHT, BUFFER_WIDTH};

fn blank_code() -> ColorCode {
    ColorCode::new(Color::Black, Color::Black)
}

#[test]
fn color_code_packs_background_in_high_nibble() {
    assert_eq!(ColorCode::new(Color::White, Color::Black).0, 0x0f);
    assert_eq!(ColorCode::new(Color::Yellow, Color::Blue).0, 0x1e);
    assert_eq!(ColorCode::new(Color::Black, Color::Black).0, 0x00);
    assert_eq!(ColorCode::new(Color::LightGray, Color::Red).0, 0x47);
}

#[test]
fn new_writer_has_a_blank_grid() {
    let w = Writer::new();
    assert_eq!(w.column_position, 0);
    for row in 0..BUFFER_HEIGHT {
        for col in 0..BUFFER_WIDTH {
            let c = w.char_at(row, col);
            assert_eq!(c.ascii_char, b' ');
            assert_eq!(c.color_code, blank_code());
        }
    }
}

#[test]
fn write_byte_places_at_cursor_and_advances() {
    let mut w = Writer::new();
    w.write_byte(b'X');
    assert_eq!(w.char_at(BUFFER_HEIGHT - 1, 0).ascii_char, b'X');
    assert_eq!(
        w.char_at(BUFFER_HEIGHT - 1, 0).color_code,
        ColorCode::new(Color::White, Color::Black)
    );
    assert_eq!(w.column_position, 1);
    w.write_byte(b'Y');
    assert_eq!(w.char_at(BUFFER_HEIGHT - 1, 1).ascii_char, b'Y');
    assert_eq!(w.column_position, 2);
    for row in 0..BUFFER_HEIGHT - 1 {
        for col in 0..BUFFER_WIDTH {
            assert_eq!(w.char_at(row, col).ascii_char, b' ');
        }
    }
}

#[test]
fn nonprintable_byte_writes_the_substitution_glyph() {
    let mut a = Writer::new();
    let mut b = Writer::new();
    a.write_byte(0x01);
    b.write_byte(0xfe);
    assert_eq!(a.column_position, b.column_position);
    for col in 0..BUFFER_WIDTH {
        assert_eq!(
            a.char_at(BUFFER_HEIGHT - 1, col),
            b.char_at(BUFFER_HEIGHT - 1, col)
        );
    }
    assert_eq!(a.char_at(BUFFER_HEIGHT - 1, 0).ascii_char, 0xfe);
}

#[test]
fn newline_on_a_blank_grid_only_resets_the_cursor() {
    let mut w = Writer::new();
    w.write_byte(b'\n');
    assert_eq!(w.column_position, 0);
    for row in 0..BUFFER_HEIGHT {
        for col in 0..BUFFER_WIDTH {
            let c = w.char_at(row, col);
            assert_eq!(c.ascii_char, b' ');
            assert_eq!(c.color_code, blank_code());
        }
    }
}

#[test]
fn a_full_row_scrolls_once_before_the_next_byte() {
    let mut w = Writer::new();
    for _ in 0..BUFFER_WIDTH {
        w.write_byte(b'x');
    }
    assert_eq!(w.column_position, BUFFER_WIDTH);
    for col in 0..BUFFER_WIDTH {
        assert_eq!(w.char_at(BUFFER_HEIGHT - 1, col).ascii_char, b'x');
    }
    w.write_byte(b'y');
    assert_eq!(w.column_position, 1);
    for col in 0..BUFFER_WIDTH {
        assert_eq!(w.char_at(BUFFER_HEIGHT - 2, col).ascii_char, b'x');
    }
    assert_eq!(w.char_at(BUFFER_HEIGHT - 1, 0).ascii_char, b'y');
    for col in 1..BUFFER_WIDTH {
        assert_eq!(w.char_at(BUFFER_HEIGHT - 1, col).ascii_char, b' ');
    }
}

#[test]
fn writing_past_the_last_column_wraps_to_a_fresh_row() {
    let mut w = Writer::new();
    for _ in 0..BUFFER_WIDTH - 1 {
        w.write_byte(b'x');
    }
    assert_eq!(w.column_position, BUFFER_WIDTH - 1);
    w.write_string("AB");
    assert_eq!(w.char_at(BUFFER_HEIGHT - 2, BUFFER_WIDTH - 1).ascii_char, b'A');
    assert_eq!(w.char_at(BUFFER_HEIGHT - 1, 0).ascii_char, b'B');
    assert_eq!(w.column_position, 1);
}

#[test]
fn newline_always_scrolls_and_resets_the_cursor() {
    let mut w = Writer::new();
    w.write_string("AB");
    assert_eq!(w.column_position, 2);
    w.write_byte(b'\n');
    assert_eq!(w.column_position, 0);
    assert_eq!(w.char_at(BUFFER_HEIGHT - 2, 0).ascii_char, b'A');
    assert_eq!(w.char_at(BUFFER_HEIGHT - 2, 1).ascii_char, b'B');
    for col in 0..BUFFER_WIDTH {
        assert_eq!(w.char_at(BUFFER_HEIGHT - 1, col).ascii_char, b' ');
    }
}

#[test]
fn a_printable_string_reads_back_from_the_bottom_row() {
    let mut w = Writer::new();
    let s = "This is the test string";
    w.write_string(s);
    for (i, &byte) in s.as_bytes().iter().enumerate() {
        assert_eq!(w.char_at(BUFFER_HEIGHT - 1, i).ascii_char, byte);
    }
    assert_eq!(w.column_position, s.len());
}

#[test]
fn multibyte_text_renders_as_substitution_glyphs() {
    let mut w = Writer::new();
    w.write_string("\u{e9}");
    assert_eq!(w.column_position, 2);
    assert_eq!(w.char_at(BUFFER_HEIGHT - 1, 0).ascii_char, 0xfe);
    assert_eq!(w.char_at(BUFFER_HEIGHT - 1, 1).ascii_char, 0xfe);
}

#[test]
fn set_color_applies_only_to_later_writes() {
    let mut w = Writer::new();
    w.write_byte(b'a');
    w.set_color(Color::LightGreen, Color::Red);
    w.write_byte(b'b');
    assert_eq!(
        w.char_at(BUFFER_HEIGHT - 1, 0).color_code,
        ColorCode::new(Color::White, Color::Black)
    );
    assert_eq!(
        w.char_at(BUFFER_HEIGHT - 1, 1).color_code,
        ColorCode::new(Color::LightGreen, Color::Red)
    );
}

fn assert_row_holds(w: &Writer, row: usize, text: &str) {
    let bytes = text.as_bytes();
    for col in 0..BUFFER_WIDTH {
        let expected = if col < bytes.len() { bytes[col] } else { b' ' };
        assert_eq!(w.char_at(row, col).ascii_char, expected);
    }
}

#[test]
fn two_hundred_lines_keep_the_newest_above_the_cleared_bottom_row() {
    let mut w = Writer::new();
    for i in 0..200 {
        let line = format!("line {}\n", i);
        w.write_string(&line);
    }
    assert_eq!(w.column_position, 0);
    assert_row_holds(&w, BUFFER_HEIGHT - 1, "");
    for row in 0..BUFFER_HEIGHT - 1 {
        let expected = format!("line {}", 176 + row);
        assert_row_holds(&w, row, &expected);
    }
}

#[test]
fn locked_contexts_write_whole_lines_without_interleaving() {
    let writer = spin::Mutex::new(Writer::new());
    {
        let mut guard = writer.lock();
        guard.write_string("first context\n");
    }
    {
        let mut guard = writer.lock();
        guard.write_string("second context\n");
    }
    let w = writer.lock();
    assert_row_holds(&w, BUFFER_HEIGHT - 3, "first context");
    assert_row_holds(&w, BUFFER_HEIGHT - 2, "second context");
    assert_row_holds(&w, BUFFER_HEIGHT - 1, "");
}
