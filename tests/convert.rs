use retro_frontend::convert::{
    argb1555_pixel, dominant_color, fill_solid, rgb565_pixel, ConversionTables, PixelFormat,
};

fn widen(c: u32, max: u32) -> u32 {
    (c * 255 + max / 2) / max
}

fn reference_rgb565(v: u32) -> u32 {
    let r = widen((v >> 11) & 0x1F, 31);
    let g = widen((v >> 5) & 0x3F, 63);
    let b = widen(v & 0x1F, 31);
    0xFF00_0000 | (r << 16) | (g << 8) | b
}

fn reference_argb1555(v: u32) -> u32 {
    let a = if v & 0x8000 != 0 { 255 } else { 0 };
    let r = widen((v >> 10) & 0x1F, 31);
    let g = widen((v >> 5) & 0x1F, 31);
    let b = widen(v & 0x1F, 31);
    (a << 24) | (r << 16) | (g << 8) | b
}

#[test]
fn rgb565_exact_values() {
    assert_eq!(rgb565_pixel(0x0000), 0xFF00_0000);
    assert_eq!(rgb565_pixel(0xFFFF), 0xFFFF_FFFF);
    assert_eq!(rgb565_pixel(0xF800), 0xFFFF_0000);
    assert_eq!(rgb565_pixel(0x07E0), 0xFF00_FF00);
    assert_eq!(rgb565_pixel(0x001F), 0xFF00_00FF);
    assert_eq!(rgb565_pixel(0x8410), 0xFF84_8284);
}

#[test]
fn argb1555_exact_values() {
    assert_eq!(argb1555_pixel(0x0000), 0x0000_0000);
    assert_eq!(argb1555_pixel(0x7FFF), 0x00FF_FFFF);
    assert_eq!(argb1555_pixel(0x8000), 0xFF00_0000);
    assert_eq!(argb1555_pixel(0xFC00), 0xFFFF_0000);
}

#[test]
fn tables_match_reference_for_every_input() {
    let t = ConversionTables::new();
    for v in 0..=0xFFFFu32 {
        assert_eq!(t.convert_rgb565(v as u16), reference_rgb565(v));
        assert_eq!(t.convert_rgb565(v as u16), t.convert_rgb565(v as u16));
        assert_eq!(t.convert_argb1555(v as u16), reference_argb1555(v));
    }
}

#[test]
fn convert_pixel_writes_little_endian() {
    let t = ConversionTables::new();
    let src = [0x00u8, 0xF8];
    let mut dest = [7u8; 8];
    t.convert_pixel(PixelFormat::RGB565, &src, 0, &mut dest, 4);
    assert_eq!(dest, [7, 7, 7, 7, 0x00, 0x00, 0xFF, 0xFF]);
    let src = [1u8, 2, 3, 4];
    t.convert_pixel(PixelFormat::ARGB8888, &src, 0, &mut dest, 0);
    assert_eq!(dest, [1, 2, 3, 4, 0x00, 0x00, 0xFF, 0xFF]);
}

#[test]
fn dominant_color_takes_most_common_bucket() {
    // three red pixels and one blue, bytes blue, green, red, alpha
    let frame = [
        0, 0, 0xFF, 0xFF, 0, 0, 0xF3, 0xFF, 0xFF, 0, 0, 0xFF, 0, 0, 0xF0, 0xFF,
    ];
    assert_eq!(dominant_color(&frame), 0xFFFF_0000);
}

#[test]
fn dominant_color_breaks_ties_low_and_ignores_partial_pixel() {
    let frame = [0xFF, 0, 0, 0xFF, 0, 0x20, 0, 0xFF, 9, 9];
    assert_eq!(dominant_color(&frame), 0xFF00_00FF);
    assert_eq!(dominant_color(&[]), 0xFF00_0000);
}

#[test]
fn fill_solid_fills_whole_pixels() {
    let mut dest = [0u8; 10];
    fill_solid(&mut dest, 0x8011_2233);
    assert_eq!(dest, [0x33, 0x22, 0x11, 0x80, 0x33, 0x22, 0x11, 0x80, 0, 0]);
}
