use chip8_emulator::io::{Display, Keypad, Point};
use chip8_emulator::sprite::Sprite;

#[test]
fn test_draw_aligned_sprite() {
    let mut display = Display::new();
    let collision = display.draw_sprite(Point(8, 2), Sprite { rows: vec![0xFF, 0x81] });
    assert!(!collision);
    let frame = display.snapshot();
    assert_eq!(0xFF, frame[2 * 8 + 1]);
    assert_eq!(0x81, frame[3 * 8 + 1]);
}

#[test]
fn test_draw_straddles_byte_boundary() {
    let mut display = Display::new();
    let collision = display.draw_sprite(Point(4, 0), Sprite { rows: vec![0xFF] });
    assert!(!collision);
    let frame = display.snapshot();
    assert_eq!(0x0F, frame[0]);
    assert_eq!(0xF0, frame[1]);
    for (i, byte) in frame.iter().enumerate() {
        if i != 0 && i != 1 {
            assert_eq!(0, *byte);
        }
    }
}

#[test]
fn test_draw_wraps_at_display_width() {
    let mut display = Display::new();
    let collision = display.draw_sprite(Point(60, 0), Sprite { rows: vec![0xFF] });
    assert!(!collision);
    let frame = display.snapshot();
    assert_eq!(0x0F, frame[7]);
    assert_eq!(0xF0, frame[0]);
}

#[test]
fn test_draw_wraps_at_display_height() {
    let mut display = Display::new();
    let collision = display.draw_sprite(Point(0, 31), Sprite { rows: vec![0xAA, 0x55] });
    assert!(!collision);
    let frame = display.snapshot();
    assert_eq!(0xAA, frame[31 * 8]);
    assert_eq!(0x55, frame[0]);
}

#[test]
fn test_draw_twice_restores_display() {
    let mut display = Display::new();
    let rows = vec![0xFF, 0x81, 0x3C];
    let first = display.draw_sprite(Point(13, 9), Sprite { rows: rows.clone() });
    assert!(!first);
    let second = display.draw_sprite(Point(13, 9), Sprite { rows });
    assert!(second);
    let frame = display.snapshot();
    for byte in frame.iter() {
        assert_eq!(0, *byte);
    }
}

#[test]
fn test_draw_second_draw_without_set_bits_reports_no_collision() {
    let mut display = Display::new();
    display.draw_sprite(Point(0, 0), Sprite { rows: vec![0xF0] });
    let collision = display.draw_sprite(Point(0, 0), Sprite { rows: vec![0x00] });
    assert!(!collision);
}

#[test]
fn test_draw_overlap_collides() {
    let mut display = Display::new();
    let first = display.draw_sprite(Point(0, 0), Sprite { rows: vec![0xF0] });
    assert!(!first);
    let second = display.draw_sprite(Point(0, 0), Sprite { rows: vec![0x10] });
    assert!(second);
    let frame = display.snapshot();
    assert_eq!(0xE0, frame[0]);
}

#[test]
fn test_clear_screen() {
    let mut display = Display::new();
    display.draw_sprite(Point(17, 5), Sprite { rows: vec![0xFF, 0xFF] });
    display.clear_screen();
    let frame = display.snapshot();
    assert_eq!(256, frame.len());
    for byte in frame.iter() {
        assert_eq!(0, *byte);
    }
}

#[test]
fn test_keypad_tracks_keys() {
    let mut keypad = Keypad::new();
    for k in 0..16 {
        assert!(!keypad.key_down(k));
    }
    keypad.set_key(0xB, true);
    assert!(keypad.key_down(0xB));
    assert!(!keypad.key_down(0xA));
    keypad.set_key(0xB, false);
    assert!(!keypad.key_down(0xB));
}
