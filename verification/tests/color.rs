use epaper7in3f::geometry::{FRAME_BYTES, ROW_BYTES};
use epaper7in3f::{EPD_7IN3F_HEIGHT, EPD_7IN3F_WIDTH};
use epaper7in3f::Color;

#[test]
fn wire_codes_are_those_of_the_panel() {
    assert_eq!(Color::Black.code(), 0b000);
    assert_eq!(Color::White.code(), 0b001);
    assert_eq!(Color::Yellow.code(), 0b010);
    assert_eq!(Color::Red.code(), 0b011);
    assert_eq!(Color::Blue.code(), 0b101);
    assert_eq!(Color::Green.code(), 0b110);
    assert_eq!(Color::Clean.code(), 0b111);
}

#[test]
fn fill_byte_repeats_the_code_in_both_nibbles() {
    let all = [
        Color::Black,
        Color::White,
        Color::Yellow,
        Color::Red,
        Color::Blue,
        Color::Green,
        Color::Clean,
    ];
    for color in all {
        let code = color.code();
        assert_eq!(color.fill_byte(), (code << 4) | code);
    }
    assert_eq!(Color::Black.fill_byte(), 0x00);
    assert_eq!(Color::White.fill_byte(), 0x11);
    assert_eq!(Color::Yellow.fill_byte(), 0x22);
    assert_eq!(Color::Red.fill_byte(), 0x33);
    assert_eq!(Color::Blue.fill_byte(), 0x55);
    assert_eq!(Color::Green.fill_byte(), 0x66);
    assert_eq!(Color::Clean.fill_byte(), 0x77);
}

#[test]
fn pack_puts_the_left_pixel_in_the_high_nibble() {
    assert_eq!(Color::pack(Color::Red, Color::Blue), 0x35);
    assert_eq!(Color::pack(Color::Blue, Color::Red), 0x53);
    assert_eq!(Color::pack(Color::Black, Color::Clean), 0x07);
    assert_eq!(Color::pack(Color::Clean, Color::Black), 0x70);
}

#[test]
fn geometry_of_the_panel() {
    assert_eq!(EPD_7IN3F_WIDTH, 800);
    assert_eq!(EPD_7IN3F_HEIGHT, 480);
    assert_eq!(ROW_BYTES, 400);
    assert_eq!(FRAME_BYTES, 192_000);
}
