use blog_os::vga_buffer::{
    Buffer, Color, ColorCode, ScreenChar, Writer, BUFFER_HEIGHT, BUFFER_WIDTH, PLACEHOLDER,
};
use volatile::Volatile;

const ALL_COLORS: [Color; 16] = [
    Color::Black,
    Color::Blue,
    Color::Green,
    Color::Cyan,
    Color::Red,
    Color::Magenta,
    Color::Brown,
    Color::LightGray,
    Color::DarkGray,
    Color::LightBlue,
    Color::LightGreen,
    Color::LightCyan,
    Color::LightRed,
    Color::Pink,
    Color::Yellow,
    Color::White,
];

fn ram_buffer(word: u16) -> &'static mut Buffer {
    Box::leak(Box::new(Buffer {
        chars: core::array::from_fn(|_| core::array::from_fn(|_| Volatile::new(word))),
    }))
}

fn yellow_on_black() -> ColorCode {
    ColorCode::new(Color::Yellow, Color::Black)
}

/// A writer over a buffer in ordinary memory whose cells all hold `word`.
fn writer_over(word: u16) -> Writer {
    Writer::new(ram_buffer(word), yellow_on_black())
}

/// A writer over a buffer that was cleared to blanks in its color.
fn cleared_writer() -> Writer {
    let mut w = writer_over(0);
    for row in 0..BUFFER_HEIGHT {
        w.clear_row(row);
    }
    w
}

fn blank() -> ScreenChar {
    ScreenChar { ascii_character: b' ', color_code: yellow_on_black() }
}

fn bottom(w: &Writer, col: usize) -> u8 {
    w.read_char(BUFFER_HEIGHT - 1, col).ascii_character
}

#[test]
fn color_codes_pack_background_high_foreground_low() {
    for (fi, fg) in ALL_COLORS.iter().enumerate() {
        for (bi, bg) in ALL_COLORS.iter().enumerate() {
            let code = ColorCode::new(*fg, *bg);
            assert_eq!(code.0 as usize, (bi << 4) | fi);
            assert_eq!(fg.code() as usize, fi);
        }
    }
    assert_eq!(yellow_on_black().0, 0x0e);
    assert_eq!(ColorCode::new(Color::White, Color::Blue).0, 0x1f);
}

#[test]
fn screen_char_word_puts_code_point_in_low_byte() {
    let ch = ScreenChar { ascii_character: b'A', color_code: ColorCode(0x1f) };
    assert_eq!(ch.to_word(), 0x1f41);
    assert_eq!(ch.to_word().to_le_bytes(), [b'A', 0x1f]);
    assert_eq!(ScreenChar::from_word(0x1f41), ch);
}

#[test]
fn hello_world_on_cleared_buffer() {
    let mut w = cleared_writer();
    w.write_string("Hello World!");
    let text = b"Hello World!";
    for (col, b) in text.iter().enumerate() {
        let ch = w.read_char(BUFFER_HEIGHT - 1, col);
        assert_eq!(ch.ascii_character, *b);
        assert_eq!(ch.color_code, yellow_on_black());
    }
    for col in 12..BUFFER_WIDTH {
        assert_eq!(w.read_char(BUFFER_HEIGHT - 1, col), blank());
    }
    for row in 0..BUFFER_HEIGHT - 1 {
        for col in 0..BUFFER_WIDTH {
            assert_eq!(w.read_char(row, col), blank());
        }
    }
    assert_eq!(w.column_position(), 12);
}

#[test]
fn eighty_five_bytes_wrap_once() {
    let mut w = cleared_writer();
    let s: String = (0..85).map(|i| (b'a' + (i % 26) as u8) as char).collect();
    w.write_string(&s);
    let bytes = s.as_bytes();
    for col in 0..BUFFER_WIDTH {
        assert_eq!(w.read_char(BUFFER_HEIGHT - 2, col).ascii_character, bytes[col]);
    }
    for col in 0..5 {
        assert_eq!(bottom(&w, col), bytes[80 + col]);
    }
    for col in 5..BUFFER_WIDTH {
        assert_eq!(w.read_char(BUFFER_HEIGHT - 1, col), blank());
    }
    for col in 0..BUFFER_WIDTH {
        assert_eq!(w.read_char(BUFFER_HEIGHT - 3, col), blank());
    }
    assert_eq!(w.column_position(), 5);
}

#[test]
fn eighty_bytes_fill_row_without_scroll() {
    let mut w = writer_over(0x0e2e);
    for row in 0..BUFFER_HEIGHT {
        if row == BUFFER_HEIGHT - 1 {
            w.clear_row(row);
        }
    }
    let s = "x".repeat(80);
    w.write_string(&s);
    assert_eq!(w.column_position(), 80);
    for col in 0..BUFFER_WIDTH {
        assert_eq!(bottom(&w, col), b'x');
    }
    for row in 0..BUFFER_HEIGHT - 1 {
        assert_eq!(w.read_char(row, 0).to_word(), 0x0e2e);
    }
    w.write_string("y");
    assert_eq!(w.column_position(), 1);
    assert_eq!(bottom(&w, 0), b'y');
    assert_eq!(w.read_char(BUFFER_HEIGHT - 2, 79).ascii_character, b'x');
    assert_eq!(w.read_char(BUFFER_HEIGHT - 3, 0).to_word(), 0x0e2e);
    assert_eq!(w.read_char(0, 0).to_word(), 0x0e2e);
}

#[test]
fn nul_byte_becomes_placeholder() {
    let mut w = cleared_writer();
    w.write_string("\0");
    let ch = w.read_char(BUFFER_HEIGHT - 1, 0);
    assert_eq!(ch.ascii_character, 0xfe);
    assert_eq!(ch.ascii_character, PLACEHOLDER);
    assert_eq!(ch.color_code, w.color_code());
}

#[test]
fn only_printable_bytes_and_newline_pass() {
    let mut w = cleared_writer();
    w.write_string("a\x7f~ \x1fé\tz");
    let expected = [b'a', 0xfe, b'~', b' ', 0xfe, 0xfe, 0xfe, 0xfe, b'z'];
    for (col, b) in expected.iter().enumerate() {
        assert_eq!(bottom(&w, col), *b);
    }
    assert_eq!(w.column_position(), expected.len());
    w.write_string("q\n");
    assert_eq!(w.column_position(), 0);
    assert_eq!(w.read_char(BUFFER_HEIGHT - 2, 9).ascii_character, b'q');
}

#[test]
fn write_byte_replaces_unprintable_byte() {
    let mut w = cleared_writer();
    w.write_byte(0x01);
    assert_eq!(bottom(&w, 0), 0xfe);
    w.write_byte(0x00);
    assert_eq!(w.read_char(BUFFER_HEIGHT - 1, 1), ScreenChar { ascii_character: 0xfe, color_code: yellow_on_black() });
    w.write_byte(b'k');
    assert_eq!(bottom(&w, 2), b'k');
    assert_eq!(w.column_position(), 3);
}

#[test]
fn write_byte_on_full_row_scrolls_then_places_placeholder() {
    let mut w = cleared_writer();
    w.write_string(&"m".repeat(80));
    w.write_byte(0x00);
    assert_eq!(w.column_position(), 1);
    assert_eq!(bottom(&w, 0), 0xfe);
    assert_eq!(w.read_char(BUFFER_HEIGHT - 1, 1), blank());
    assert_eq!(w.read_char(BUFFER_HEIGHT - 2, 79).ascii_character, b'm');
}

#[test]
fn new_line_shifts_rows_and_blanks_bottom() {
    let mut w = cleared_writer();
    for row in 0..BUFFER_HEIGHT {
        w.write_string(&format!("{}", row % 10));
        if row + 1 < BUFFER_HEIGHT {
            w.write_string("\n");
        }
    }
    assert_eq!(w.read_char(0, 0).ascii_character, b'0');
    assert_eq!(bottom(&w, 0), b'4');
    w.new_line();
    assert_eq!(w.column_position(), 0);
    for row in 0..BUFFER_HEIGHT - 1 {
        let expected = b'0' + ((row + 1) % 10) as u8;
        assert_eq!(w.read_char(row, 0).ascii_character, expected);
        assert_eq!(w.read_char(row, 1), blank());
    }
    for col in 0..BUFFER_WIDTH {
        assert_eq!(w.read_char(BUFFER_HEIGHT - 1, col), blank());
    }
}

#[test]
fn newlines_scroll_once_each() {
    let mut w = cleared_writer();
    w.write_string("top");
    w.write_string("\n\n\n");
    assert_eq!(w.read_char(BUFFER_HEIGHT - 4, 0).ascii_character, b't');
    assert_eq!(w.read_char(BUFFER_HEIGHT - 4, 2).ascii_character, b'p');
    assert_eq!(w.read_char(BUFFER_HEIGHT - 3, 0), blank());
    assert_eq!(w.column_position(), 0);
}

#[test]
fn empty_string_changes_nothing() {
    let mut w = writer_over(0x1234);
    w.write_string("");
    assert_eq!(w.column_position(), 0);
    assert_eq!(w.read_char(BUFFER_HEIGHT - 1, 0).to_word(), 0x1234);
}

#[test]
fn clear_row_uses_current_color() {
    let mut w = Writer::new(ram_buffer(0x4141), ColorCode::new(Color::White, Color::Red));
    w.clear_row(3);
    for col in 0..BUFFER_WIDTH {
        assert_eq!(w.read_char(3, col).to_word(), 0x4f20);
    }
    assert_eq!(w.read_char(2, 0).to_word(), 0x4141);
    assert_eq!(w.read_char(4, 79).to_word(), 0x4141);
}

#[test]
fn decimal_output() {
    let mut w = cleared_writer();
    w.write_decimal(0);
    w.write_string(" ");
    w.write_decimal(1207);
    let expected = b"0 1207";
    for (col, b) in expected.iter().enumerate() {
        assert_eq!(bottom(&w, col), *b);
    }
    assert_eq!(w.column_position(), 6);
}

#[test]
fn every_cell_stays_displayable() {
    let mut w = cleared_writer();
    let bytes: Vec<u8> = (0..=255u8).cycle().take(700).collect();
    let s: String = bytes.iter().map(|b| *b as char).collect();
    w.write_string(&s);
    for b in 0..=255u8 {
        w.write_byte(b);
    }
    for row in 0..BUFFER_HEIGHT {
        for col in 0..BUFFER_WIDTH {
            let a = w.read_char(row, col).ascii_character;
            assert!((0x20..=0x7e).contains(&a) || a == 0xfe, "cell {} {} holds {:#x}", row, col, a);
        }
    }
}
