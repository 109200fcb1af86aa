use termplay::ascii::AsciiConverter;

const TEN: &str = " .:-=+*#%@";
const GRADIENT: &str = " ░▒▓█";

#[test]
fn step_is_ceiling_of_255_over_size() {
    let c = AsciiConverter::new(&TEN.to_string());
    assert_eq!(c.step(), 26);
    assert_eq!(c.len(), 10);
    let g = AsciiConverter::new(&GRADIENT.to_string());
    assert_eq!(g.step(), 51);
    let big = AsciiConverter::new(&"x".repeat(300));
    assert_eq!(big.step(), 1);
}

#[test]
fn index_stays_in_palette_for_every_brightness() {
    for p in [TEN.to_string(), GRADIENT.to_string(), " █".to_string(), "@".to_string(), "ab".repeat(60)] {
        let c = AsciiConverter::new(&p);
        for b in 0..=255u8 {
            assert!(c.index(b) < c.len());
        }
    }
}

#[test]
fn index_is_quotient_by_step() {
    let c = AsciiConverter::new(&TEN.to_string());
    assert_eq!(c.index(0), 0);
    assert_eq!(c.index(25), 0);
    assert_eq!(c.index(26), 1);
    assert_eq!(c.index(255), 9);
}

#[test]
fn index_clamps_when_size_divides_255() {
    let g = AsciiConverter::new(&GRADIENT.to_string());
    assert_eq!(g.index(254), 4);
    assert_eq!(g.index(255), 4);
    assert_eq!(g.index(50), 0);
    assert_eq!(g.index(51), 1);
}

#[test]
fn char_len_is_widest_glyph() {
    assert_eq!(AsciiConverter::new(&TEN.to_string()).char_len(), 1);
    assert_eq!(AsciiConverter::new(&GRADIENT.to_string()).char_len(), 3);
    assert_eq!(AsciiConverter::new(&"a⣿".to_string()).char_len(), 3);
}

#[test]
fn glyph_table_pads_short_glyphs_with_zeros() {
    let c = AsciiConverter::new(&" █".to_string());
    assert_eq!(c.glyph_table(), vec![0x20, 0, 0, 0xE2, 0x96, 0x88]);
}

#[test]
fn convert_grayscale_picks_glyph_per_pixel() {
    let c = AsciiConverter::new(&TEN.to_string());
    let frame = c.convert(&vec![0, 255, 26, 130], 4, true);
    assert_eq!(frame.char_len, 1);
    assert_eq!(frame.string, b"\n @.+".to_vec());
    assert!(frame.rgb.is_empty());
}

#[test]
fn convert_separates_rows() {
    let c = AsciiConverter::new(&TEN.to_string());
    let frame = c.convert(&vec![0, 255, 26, 130], 2, true);
    assert_eq!(frame.string, b"\n @\n.+".to_vec());
}

#[test]
fn convert_color_keeps_source_colors() {
    let c = AsciiConverter::new(&TEN.to_string());
    let pixels = vec![255, 255, 255, 0, 0, 90, 30, 60, 90];
    let frame = c.convert(&pixels, 3, false);
    assert_eq!(frame.string, b"\n@.:".to_vec());
    let mut want = vec![255, 255, 255];
    want.extend_from_slice(&pixels);
    assert_eq!(frame.rgb, want);
}

#[test]
fn convert_color_rows_take_first_pixel_color_for_separator() {
    let c = AsciiConverter::new(&TEN.to_string());
    let pixels = vec![1, 2, 3, 4, 5, 6];
    let frame = c.convert(&pixels, 1, false);
    assert_eq!(frame.string, b"\n \n ".to_vec());
    assert_eq!(frame.rgb, vec![1, 2, 3, 1, 2, 3, 4, 5, 6, 4, 5, 6]);
}

#[test]
fn convert_color_drops_partial_pixel() {
    let c = AsciiConverter::new(&TEN.to_string());
    let frame = c.convert(&vec![255, 255, 255, 7], 1, false);
    assert_eq!(frame.string, b"\n@".to_vec());
    assert_eq!(frame.rgb, vec![255, 255, 255, 255, 255, 255]);
}

#[test]
fn convert_pads_multibyte_cells() {
    let c = AsciiConverter::new(&" █".to_string());
    let frame = c.convert(&vec![0, 200], 2, true);
    assert_eq!(frame.char_len, 3);
    assert_eq!(frame.string, vec![0x0a, 0, 0, 0x20, 0, 0, 0xE2, 0x96, 0x88]);
}

#[test]
fn convert_empty_buffer() {
    let c = AsciiConverter::new(&TEN.to_string());
    let frame = c.convert(&Vec::new(), 5, false);
    assert!(frame.string.is_empty());
    assert!(frame.rgb.is_empty());
}
