use icmc_gui::charmap::{palette_is_valid, Charmap};

const PALETTE: &str = "[\"#000000\", \"#FFFFFF\", \"#FF0000\"]";

#[test]
fn new_allocates_zeroed_buffers() {
    let c = Charmap::new(8, 8, 2, 3);
    assert_eq!(c.char_width(), 8);
    assert_eq!(c.char_height(), 8);
    assert_eq!(c.num_colors(), 2);
    assert_eq!(c.pixels().len(), 3 * 8);
    assert_eq!(c.bytes().len(), 8 * 2 * 8 * 3 * 4);
    assert!(c.bytes().iter().all(|b| *b == 0));
    assert!(c.needs_reload && c.needs_reload_editor);
}

#[test]
fn from_bytes_parses_palette_and_renders() {
    let bytes = vec![0b1000_0000, 0, 0, 0, 0, 0, 0, 0x01];
    let c = Charmap::from_bytes(8, 8, 3, 1, bytes.clone(), PALETTE);
    assert_eq!(c.num_colors(), 3);
    assert_eq!(c.num_chars(), 1);
    assert_eq!(c.bytes(), &bytes[..]);
    // atlas is 24 x 8 pixels
    assert_eq!(c.pixels().len(), 24 * 8 * 4);
    // black is drawn inverted (white), white is kept, red inverted to cyan
    assert_eq!(c.palette_rgba(0), [0xff, 0xff, 0xff, 0xff]);
    assert_eq!(c.palette_rgba(1), [0xff, 0xff, 0xff, 0xff]);
    assert_eq!(c.palette_rgba(2), [0x00, 0xff, 0xff, 0xff]);
    // pixel (0, 0) is set: colour 0 shown white
    assert_eq!(&c.pixels()[0..4], &[0xff, 0xff, 0xff, 0xff]);
    // pixel (1, 0) is unset: opaque black
    assert_eq!(&c.pixels()[4..8], &[0, 0, 0, 0xff]);
    // pixel (16, 0) is glyph column 0 in colour 2: cyan
    let p = 16 * 4;
    assert_eq!(&c.pixels()[p..p + 4], &[0x00, 0xff, 0xff, 0xff]);
    // pixel (7, 7) is set (last bit of the last row)
    let p = (7 * 24 + 7) * 4;
    assert_eq!(&c.pixels()[p..p + 4], &[0xff, 0xff, 0xff, 0xff]);
}

#[test]
fn palette_accepts_plus_sign_and_surrounding_space() {
    let c = Charmap::from_bytes(8, 8, 1, 1, vec![0; 8], "  [ \"#+a0B0c\" ]\n");
    // '+a' reads as 0x0a, 0B as 11, 0c as 12; inverted because not white
    assert_eq!(c.palette_rgba(0), [0xff - 0x0a, 0xff - 0x0b, 0xff - 0x0c, 0xff]);
}

#[test]
fn toggle_pixel_twice_restores() {
    let bytes = vec![0u8; 16];
    let mut c = Charmap::from_bytes(8, 8, 2, 2, bytes.clone(), "[\"#000000\",\"#123456\"]");
    let pixels_before = c.pixels().to_vec();
    c.needs_reload = false;
    c.toggle_pixel(3, 9);
    assert_eq!(c.bytes()[9], 0b0001_0000);
    assert!(c.needs_reload && c.needs_reload_editor);
    assert_ne!(c.pixels(), &pixels_before[..]);
    c.toggle_pixel(3, 9);
    assert_eq!(c.bytes(), &bytes[..]);
    assert_eq!(c.pixels(), &pixels_before[..]);
}

#[test]
fn toggle_pixel_clamps_column_and_ignores_rows_past_end() {
    let mut c = Charmap::from_bytes(4, 2, 1, 1, vec![0u8; 2], "[\"#ffffff\"]");
    c.toggle_pixel(100, 1);
    assert_eq!(c.bytes(), &[0, 0b0001_0000]);
    let before = c.bytes().to_vec();
    c.needs_reload = false;
    c.toggle_pixel(0, 2);
    assert_eq!(c.bytes(), &before[..]);
    assert!(!c.needs_reload);
}

#[test]
fn palette_lists_are_checked() {
    assert!(palette_is_valid(PALETTE));
    assert!(palette_is_valid("[\"#+f+f+f\"]"));
    assert!(!palette_is_valid("[\"#00000\"]"));
    assert!(!palette_is_valid("[\"#0000zz\"]"));
    assert!(!palette_is_valid("[\"#000000\",]"));
}

#[test]
fn try_from_bytes_refuses_what_cannot_be_drawn() {
    let bytes = vec![0u8; 8];
    assert!(Charmap::try_from_bytes(8, 8, 3, 1, bytes.clone(), PALETTE).is_some());
    assert!(Charmap::try_from_bytes(8, 8, 3, 1, bytes.clone(), "[\"#12\"]").is_none());
    assert!(Charmap::try_from_bytes(8, 0, 3, 1, bytes.clone(), PALETTE).is_none());
    assert!(Charmap::try_from_bytes(9, 8, 3, 1, bytes.clone(), PALETTE).is_none());
    assert!(Charmap::try_from_bytes(usize::MAX, 8, 3, 1, bytes, PALETTE).is_none());
}

#[test]
fn toggles_are_checked() {
    let c = Charmap::from_bytes(8, 8, 3, 1, vec![0u8; 8], PALETTE);
    assert!(c.can_toggle(3, 2));
    assert!(c.can_toggle(100, 2));
    assert!(c.can_toggle(0, 99));
    let wide = Charmap::new(9, 8, 1, 1);
    assert!(!wide.can_toggle(0, 0));
}

#[test]
fn atlas_pixels_by_index() {
    let bytes = vec![0b1010_0000u8, 0, 0, 0, 0, 0, 0, 0b0000_0001, 0xFF, 0, 0, 0, 0, 0, 0, 0];
    let mut c = Charmap::from_bytes(8, 8, 3, 2, bytes.clone(), PALETTE);
    let (w, h, p, n) = (c.char_width(), c.char_height(), c.num_colors(), c.num_chars());
    let check = |c: &Charmap| {
        let width = w * p;
        assert_eq!(c.pixels().len(), width * h * n * 4);
        for ci in 0..p {
            for y in 0..n * h {
                for b in 0..w {
                    let i = (y * width + ci * w + b) * 4;
                    let set = (c.bytes()[y] >> (7 - b)) & 1 == 1;
                    let want = if set { c.palette_rgba(ci) } else { [0, 0, 0, 0xff] };
                    assert_eq!(&c.pixels()[i..i + 4], &want);
                }
            }
        }
    };
    check(&c);
    c.toggle_pixel(5, 12);
    check(&c);
    c.toggle_pixel(5, 12);
    check(&c);
    assert_eq!(c.bytes(), &bytes[..]);
}
