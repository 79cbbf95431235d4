use space_travel::planet_lab::framebuffer::Framebuffer;
use space_travel::planet_lab::hud::{draw_text, generate_font, set_char};

#[test]
fn font_has_the_defined_glyphs() {
    let f = generate_font();
    let a = (('A' as usize) - 32) * 5;
    assert_eq!(f[a..a + 5], [0b0111110, 0b0001001, 0b0001001, 0b0111110, 0]);
    let m = (('M' as usize) - 32) * 5;
    assert_eq!(f[m..m + 5], [0b0111111, 0b0010000, 0b0001000, 0b0010000, 0b0111111]);
    let colon = ((':' as usize) - 32) * 5;
    assert_eq!(f[colon..colon + 5], [0, 0b0001000, 0, 0b0001000, 0]);
    let f_slot = (('F' as usize) - 32) * 5;
    assert_eq!(f[f_slot..f_slot + 5], [0b0111111, 0b0100100, 0b0100100, 0b0100000, 0]);
    let q = (('Q' as usize) - 32) * 5;
    assert_eq!(f[q..q + 5], [0; 5]);
    assert_eq!(f[0..5], [0; 5]);
}

#[test]
fn set_char_writes_only_its_slot() {
    let mut buf = [1u8; 480];
    set_char(&mut buf, '!', [2, 3, 4, 5, 6]);
    assert_eq!(buf[5..10], [2, 3, 4, 5, 6]);
    assert!(buf[..5].iter().all(|&b| b == 1));
    assert!(buf[10..].iter().all(|&b| b == 1));
    let before = buf;
    set_char(&mut buf, '\u{80}', [9; 5]);
    set_char(&mut buf, '\n', [9; 5]);
    assert_eq!(buf, before);
    set_char(&mut buf, '\u{7f}', [7; 5]);
    assert_eq!(buf[475..480], [7; 5]);
}

#[test]
fn draw_text_lights_the_glyph_pixels() {
    let mut fb = Framebuffer::new(16, 10);
    draw_text(&mut fb, 1, 2, "I1", 0xFFFF_FFFF);
    let font = generate_font();
    for (i, ch) in "I1".chars().enumerate() {
        let slot = ((ch as usize) - 32) * 5;
        for col in 0..5 {
            for row in 0..7 {
                let lit = (font[slot + col] >> row) & 1 == 1;
                let p = (2 + row) * 16 + 1 + 6 * i + col;
                assert_eq!(fb.color[p] == 0xFFFF_FFFF, lit, "char {ch} col {col} row {row}");
            }
        }
    }
    let lit_count = fb.color.iter().filter(|&&c| c == 0xFFFF_FFFF).count();
    assert_eq!(lit_count, 2 + 6 + 2 + 6);
    assert!(fb.depth.iter().all(|&d| d == space_travel::planet_lab::framebuffer::FAR_DEPTH));
}

#[test]
fn draw_text_clips_and_skips_unknown_characters() {
    let mut fb = Framebuffer::new(4, 4);
    // 'é' has no slot; '-' (second character) starts at x = -8 + 6 = -2, and its
    // columns 2 and 3 land on x = 0 and 1, row 3 on y = -3 + 3 = 0.
    draw_text(&mut fb, -8, -3, "é-", 7);
    let mut expect = vec![0u32; 16];
    expect[0] = 7;
    expect[1] = 7;
    assert_eq!(fb.color, expect);
}
