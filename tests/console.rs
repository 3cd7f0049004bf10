use vga_console::vga::{Buffer, Colour, ColourCode, ScreenChar, Writer, BUFFER_HEIGHT, BUFFER_WIDTH};
use volatile::Volatile;

fn yellow_on_black() -> ColourCode {
    ColourCode::new(Colour::Yellow, Colour::Black)
}

fn blank_buffer(colour: ColourCode) -> Buffer {
    let blank = ScreenChar { ascii_character: b' ', colour_code: colour };
    core::array::from_fn(|_| core::array::from_fn(|_| Volatile::new(blank)))
}

fn row_text(buffer: &Buffer, row: usize) -> Vec<u8> {
    (0..BUFFER_WIDTH).map(|c| buffer[row][c].read().ascii_character).collect()
}

fn padded(s: &str) -> Vec<u8> {
    let mut v = s.as_bytes().to_vec();
    v.resize(BUFFER_WIDTH, b' ');
    v
}

#[test]
fn colour_code_packs_background_high() {
    assert_eq!(ColourCode::new(Colour::Yellow, Colour::Black).0, 0x0e);
    assert_eq!(ColourCode::new(Colour::White, Colour::Blue).0, 0x1f);
    assert_eq!(ColourCode::new(Colour::Black, Colour::White).0, 0xf0);
    assert_eq!(Colour::LightGreen.value(), 10);
}

#[test]
fn new_writer_starts_at_column_zero() {
    let w = Writer::new(yellow_on_black());
    assert_eq!(w.column_position(), 0);
    assert_eq!(w.colour_code(), yellow_on_black());
}

#[test]
fn multi_line_text_reads_back() {
    let mut buffer = blank_buffer(yellow_on_black());
    let mut w = Writer::new(yellow_on_black());
    let s = "multi-line test";
    w.write_string(&mut buffer, "\n");
    w.write_string(&mut buffer, s);
    w.write_string(&mut buffer, "\n");
    let expected = ['m', 'u', 'l', 't', 'i', '-', 'l', 'i', 'n', 'e', ' ', 't', 'e', 's', 't'];
    for (i, c) in expected.iter().enumerate() {
        let cell = buffer[BUFFER_HEIGHT - 2][i].read();
        assert_eq!(char::from(cell.ascii_character), *c);
        assert_eq!(cell.colour_code, yellow_on_black());
    }
    assert_eq!(w.column_position(), 0);
}

#[test]
fn printable_text_round_trips_with_column() {
    let mut buffer = blank_buffer(yellow_on_black());
    let mut w = Writer::new(yellow_on_black());
    w.write_string(&mut buffer, "Hello, world!");
    assert_eq!(w.column_position(), 13);
    assert_eq!(row_text(&buffer, BUFFER_HEIGHT - 1), padded("Hello, world!"));
    w.write_string(&mut buffer, "\nab");
    assert_eq!(w.column_position(), 2);
    assert_eq!(row_text(&buffer, BUFFER_HEIGHT - 2), padded("Hello, world!"));
    assert_eq!(row_text(&buffer, BUFFER_HEIGHT - 1), padded("ab"));
}

#[test]
fn unprintable_bytes_become_replacement_glyph() {
    let mut buffer = blank_buffer(yellow_on_black());
    let mut w = Writer::new(yellow_on_black());
    w.write_string(&mut buffer, "a\u{7f}\tb\u{e9}");
    let row = row_text(&buffer, BUFFER_HEIGHT - 1);
    assert_eq!(&row[..6], &[b'a', 0xfe, 0xfe, b'b', 0xfe, 0xfe]);
    assert_eq!(w.column_position(), 6);
}

#[test]
fn write_byte_stores_raw_byte() {
    let mut buffer = blank_buffer(yellow_on_black());
    let mut w = Writer::new(yellow_on_black());
    w.write_byte(&mut buffer, b'Z');
    assert_eq!(buffer[BUFFER_HEIGHT - 1][0].read().ascii_character, b'Z');
    assert_eq!(w.column_position(), 1);
    w.write_byte(&mut buffer, b'\n');
    assert_eq!(w.column_position(), 0);
    assert_eq!(buffer[BUFFER_HEIGHT - 2][0].read().ascii_character, b'Z');
    assert_eq!(buffer[BUFFER_HEIGHT - 1][0].read().ascii_character, b' ');
}

#[test]
fn overflow_wraps_exactly_once() {
    let mut buffer = blank_buffer(yellow_on_black());
    let mut w = Writer::new(yellow_on_black());
    let line: String = std::iter::repeat('x').take(BUFFER_WIDTH).collect();
    w.write_string(&mut buffer, &line);
    assert_eq!(w.column_position(), BUFFER_WIDTH);
    w.write_string(&mut buffer, "y");
    assert_eq!(w.column_position(), 1);
    assert_eq!(row_text(&buffer, BUFFER_HEIGHT - 2), line.as_bytes().to_vec());
    assert_eq!(row_text(&buffer, BUFFER_HEIGHT - 1), padded("y"));
    assert_eq!(row_text(&buffer, BUFFER_HEIGHT - 3), padded(""));
}

#[test]
fn oldest_line_scrolls_off() {
    let mut buffer = blank_buffer(yellow_on_black());
    let mut w = Writer::new(yellow_on_black());
    for i in 0..BUFFER_HEIGHT + 2 {
        w.write_string(&mut buffer, &format!("line {}\n", i));
    }
    w.write_string(&mut buffer, "last");
    // 27 lines were ended: the bottom row holds the unfinished one and each row
    // above it an earlier line, up to the top.
    assert_eq!(row_text(&buffer, BUFFER_HEIGHT - 1), padded("last"));
    assert_eq!(row_text(&buffer, BUFFER_HEIGHT - 2), padded("line 26"));
    assert_eq!(row_text(&buffer, 0), padded("line 3"));
}

#[test]
fn newline_blanks_bottom_row_in_current_colour() {
    let colour = ColourCode::new(Colour::White, Colour::Red);
    let mut buffer = blank_buffer(yellow_on_black());
    let mut w = Writer::new(colour);
    w.write_string(&mut buffer, "abc");
    w.new_line(&mut buffer);
    for c in 0..BUFFER_WIDTH {
        let cell = buffer[BUFFER_HEIGHT - 1][c].read();
        assert_eq!(cell, ScreenChar { ascii_character: b' ', colour_code: colour });
    }
    assert_eq!(buffer[BUFFER_HEIGHT - 2][0].read().colour_code, colour);
}

#[test]
fn clear_row_blanks_only_that_row() {
    let mut buffer = blank_buffer(yellow_on_black());
    let mut w = Writer::new(yellow_on_black());
    w.write_string(&mut buffer, "top\nmiddle\nbottom");
    w.clear_row(&mut buffer, BUFFER_HEIGHT - 2);
    assert_eq!(row_text(&buffer, BUFFER_HEIGHT - 3), padded("top"));
    assert_eq!(row_text(&buffer, BUFFER_HEIGHT - 2), padded(""));
    assert_eq!(row_text(&buffer, BUFFER_HEIGHT - 1), padded("bottom"));
}
