use os_kernel::vga::{
    clear_screen, make_color, write_char, write_str, Color, ScreenBuffer, Writer, VGA_BYTES,
    VGA_WIDTH,
};

fn cell(screen: &ScreenBuffer, row: usize, col: usize) -> (u8, u8) {
    let off = (row * VGA_WIDTH + col) * 2;
    (screen.byte(off), screen.byte(off + 1))
}

#[test]
fn test_make_color() {
    assert_eq!(make_color(Color::White, Color::Black), 0x0F);
    assert_eq!(make_color(Color::Black, Color::White), 0xF0);
    assert_eq!(make_color(Color::Cyan, Color::Red), 0x43);
}

#[test]
fn test_make_color_nibbles() {
    let c = make_color(Color::Yellow, Color::Blue);
    assert_eq!(c >> 4, 1);
    assert_eq!(c & 0xF, 14);
}

#[test]
fn test_vga_bounds_check() {
    let mut screen = ScreenBuffer::new();
    write_char(&mut screen, 25, 0, b'X', 0x0F);
    write_char(&mut screen, 0, 80, b'X', 0x0F);
    write_char(&mut screen, 99, 99, b'X', 0x0F);
    write_char(&mut screen, usize::MAX, 0, b'X', 0x0F);
    for i in 0..VGA_BYTES {
        assert_eq!(screen.byte(i), 0);
    }
}

#[test]
fn test_vga_write_char() {
    let mut screen = ScreenBuffer::new();
    write_char(&mut screen, 0, 0, b'Z', 0x0F);
    assert_eq!(screen.byte(0), b'Z');
    assert_eq!(screen.byte(1), 0x0F);
    write_char(&mut screen, 24, 79, b'Q', 0x1E);
    assert_eq!(cell(&screen, 24, 79), (b'Q', 0x1E));
}

#[test]
fn test_bounds_out_of_range() {
    let mut screen = ScreenBuffer::new();
    let long_str = "AAAAAAAAAAAAAAAAAAAAAAAAAAAAAAAAAAAAAAAA\
                    AAAAAAAAAAAAAAAAAAAAAAAAAAAAAAAAAAAAAAAA\
                    AAAAAAAAAAAAAAAAAAAAAAAAAAAAAAAAAAAAAAAA\
                    AAAAAAAAAAAAAAAAAAAAAAAAAAAAAAAAAA";
    write_str(&mut screen, 0, 0, long_str, 0x0F);
    for col in 0..80 {
        assert_eq!(cell(&screen, 0, col), (b'A', 0x0F));
    }
    // the rest of the string is dropped, not wrapped to the next line
    assert_eq!(cell(&screen, 1, 0), (0, 0));
}

#[test]
fn test_write_str_from_middle_of_line() {
    let mut screen = ScreenBuffer::new();
    write_str(&mut screen, 2, 77, "Out-of-bounds", 0x04);
    assert_eq!(cell(&screen, 2, 77), (b'O', 0x04));
    assert_eq!(cell(&screen, 2, 78), (b'u', 0x04));
    assert_eq!(cell(&screen, 2, 79), (b't', 0x04));
    assert_eq!(cell(&screen, 3, 0), (0, 0));
    let mut other = ScreenBuffer::new();
    write_str(&mut other, 1, 80, "ignored", 0x04);
    for i in 0..VGA_BYTES {
        assert_eq!(other.byte(i), 0);
    }
}

#[test]
fn test_clear_screen() {
    let mut screen = ScreenBuffer::new();
    write_char(&mut screen, 3, 3, b'x', 0x44);
    clear_screen(&mut screen);
    for row in 0..25 {
        for col in 0..80 {
            assert_eq!(cell(&screen, row, col), (b' ', 0x0F));
        }
    }
}

#[test]
fn test_writer_write_string() {
    let mut w = Writer::new();
    w.clear();
    w.write_string("Hi\nyo");
    assert_eq!(cell(w.screen(), 0, 0), (b'H', 0x0F));
    assert_eq!(cell(w.screen(), 0, 1), (b'i', 0x0F));
    assert_eq!(cell(w.screen(), 1, 0), (b'y', 0x0F));
    assert_eq!(cell(w.screen(), 1, 1), (b'o', 0x0F));
    assert_eq!(w.position(), (1, 2));
}

#[test]
fn test_writer_non_printable_shown_as_block() {
    let mut w = Writer::new();
    w.clear();
    w.write_string("a\té");
    assert_eq!(cell(w.screen(), 0, 0).0, b'a');
    assert_eq!(cell(w.screen(), 0, 1).0, 0xfe);
    // 'é' is two UTF-8 bytes, each shown as a block
    assert_eq!(cell(w.screen(), 0, 2).0, 0xfe);
    assert_eq!(cell(w.screen(), 0, 3).0, 0xfe);
    assert_eq!(w.position(), (0, 4));
}

#[test]
fn test_writer_set_color() {
    let mut w = Writer::new();
    w.clear();
    w.set_color(Color::Cyan, Color::Black);
    assert_eq!(w.current_color(), 0x03);
    w.write_byte(b'c');
    assert_eq!(cell(w.screen(), 0, 0), (b'c', 0x03));
}

#[test]
fn test_writer_wraps_long_line() {
    let mut w = Writer::new();
    w.clear();
    for _ in 0..80 {
        w.write_byte(b'x');
    }
    assert_eq!(w.position(), (0, 80));
    w.write_byte(b'y');
    assert_eq!(w.position(), (1, 1));
    assert_eq!(cell(w.screen(), 1, 0).0, b'y');
}

#[test]
fn test_writer_scrolls() {
    let mut w = Writer::new();
    w.clear();
    for i in 0..30u8 {
        w.write_byte(b'a' + (i % 26));
        w.write_byte(b'\n');
    }
    assert_eq!(w.position(), (24, 0));
    // line i was written with letter i; 30 newlines scrolled 6 lines away
    assert_eq!(cell(w.screen(), 0, 0).0, b'a' + 6);
    assert_eq!(cell(w.screen(), 23, 0).0, b'a' + 29 % 26);
    assert_eq!(cell(w.screen(), 24, 0), (b' ', 0x0F));
}

#[test]
fn test_writer_clear_resets_cursor() {
    let mut w = Writer::new();
    w.write_string("abc\ndef");
    w.set_color(Color::White, Color::Red);
    w.clear();
    assert_eq!(w.position(), (0, 0));
    assert_eq!(cell(w.screen(), 1, 1), (b' ', 0x4F));
}

#[test]
fn test_ok_label() {
    let mut w = Writer::new();
    w.clear();
    os_kernel::vga::ok_label(&mut w, "[3/6] Ecran   : ");
    assert_eq!(cell(w.screen(), 0, 0), (b'[', 0x03));
    assert_eq!(cell(w.screen(), 0, 16), (b'O', 0x0A));
    assert_eq!(cell(w.screen(), 0, 17), (b'K', 0x0A));
    assert_eq!(w.position(), (1, 0));
    assert_eq!(w.current_color(), 0x0F);
}
