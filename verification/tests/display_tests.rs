use chip8::Display;

#[test]
fn new_display_is_blank() {
    let mut d = Display::new();
    for x in 0..64 {
        for y in 0..32 {
            assert!(!d.get_pixel(x, y));
        }
    }
}

#[test]
fn set_and_get_pixel() {
    let mut d = Display::new();
    d.set_pixel(3, 7, true);
    assert!(d.get_pixel(3, 7));
    assert!(!d.get_pixel(7, 3));
    d.set_pixel(3, 7, false);
    assert!(!d.get_pixel(3, 7));
}

#[test]
fn clear_turns_everything_off() {
    let mut d = Display::new();
    d.set_pixel(0, 0, true);
    d.set_pixel(63, 31, true);
    d.clear();
    assert!(!d.get_pixel(0, 0));
    assert!(!d.get_pixel(63, 31));
}

#[test]
fn draw_sets_pixels_from_sprite_bits() {
    let mut d = Display::new();
    // 0xA5 = 1010_0101: bits 0, 2, 5, 7 of the row are set.
    let collision = d.draw(0, 0, &[0xA5]);
    assert!(!collision);
    assert!(d.get_pixel(0, 0));
    assert!(!d.get_pixel(1, 0));
    assert!(d.get_pixel(2, 0));
    assert!(!d.get_pixel(3, 0));
    assert!(!d.get_pixel(4, 0));
    assert!(d.get_pixel(5, 0));
    assert!(!d.get_pixel(6, 0));
    assert!(d.get_pixel(7, 0));
}

#[test]
fn zero_sprite_changes_nothing_and_reports_no_collision() {
    let mut d = Display::new();
    d.set_pixel(4, 2, true);
    let collision = d.draw(0, 0, &[0x00, 0x00, 0x00, 0x00]);
    assert!(!collision);
    assert!(d.get_pixel(4, 2));
    for x in 0..64 {
        for y in 0..32 {
            assert_eq!(d.get_pixel(x, y), x == 4 && y == 2);
        }
    }
}

#[test]
fn drawing_twice_restores_the_screen() {
    let mut d = Display::new();
    d.set_pixel(1, 1, true);
    let sprite = [0xFF, 0x81, 0xFF];
    // Row 1 of the sprite (0x81) leaves column 1 alone, so the first draw
    // touches only cells that are off and reports no collision.
    let first = d.draw(0, 0, &sprite);
    assert!(!first);
    let second = d.draw(0, 0, &sprite);
    assert!(second);
    for x in 0..64 {
        for y in 0..32 {
            assert_eq!(d.get_pixel(x, y), x == 1 && y == 1);
        }
    }
}

#[test]
fn second_draw_reports_collision_of_bits_lit_by_the_first() {
    let mut d = Display::new();
    let first = d.draw(10, 10, &[0x80]);
    assert!(!first);
    let second = d.draw(10, 10, &[0x80]);
    assert!(second);
    assert!(!d.get_pixel(10, 10));
}

#[test]
fn draw_wraps_columns_and_rows() {
    let mut d = Display::new();
    // An 8-row, all-on sprite drawn at (60, 28): columns 60-63 then 0-3,
    // rows 28-31 then 0-3.
    let sprite = [0xFF; 8];
    let collision = d.draw(60, 28, &sprite);
    assert!(!collision);
    for i in 0..8 {
        for j in 0..8 {
            let x = (60 + i) % 64;
            let y = (28 + j) % 32;
            assert!(d.get_pixel(x, y));
        }
    }
    assert!(d.get_pixel(63, 31));
    assert!(d.get_pixel(0, 0));
    assert!(d.get_pixel(3, 3));
    assert!(!d.get_pixel(4, 0));
    assert!(!d.get_pixel(0, 4));
    assert!(!d.get_pixel(59, 28));
}

#[test]
fn draw_coordinates_beyond_the_grid_wrap_too() {
    let mut d = Display::new();
    // x = 64 + 2, y = 32 + 1 behave as (2, 1).
    let collision = d.draw(66, 33, &[0x80]);
    assert!(!collision);
    assert!(d.get_pixel(2, 1));
}

#[test]
fn collision_only_when_a_lit_cell_is_hit() {
    let mut d = Display::new();
    d.set_pixel(0, 0, true);
    // Row 0x40 hits only column 1, which is off: no collision.
    let c1 = d.draw(0, 0, &[0x40]);
    assert!(!c1);
    // Row 0x80 hits column 0, which is on: collision, and the cell toggles off.
    let c2 = d.draw(0, 0, &[0x80]);
    assert!(c2);
    assert!(!d.get_pixel(0, 0));
}
