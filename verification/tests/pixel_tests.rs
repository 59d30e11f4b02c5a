use bk_codec::pixels::{ImgFmt, Texture};

#[test]
fn rgba16_scenario_values() {
    // 0xF801: red 31, alpha 1; 0x0001: black, opaque; 0x0000: clear
    assert_eq!(Texture::rgba16_to_rgba32(&[0xF8, 0x01]), vec![255, 0, 0, 255]);
    assert_eq!(Texture::rgba16_to_rgba32(&[0x00, 0x01]), vec![0, 0, 0, 255]);
    assert_eq!(Texture::rgba16_to_rgba32(&[0x00, 0x00]), vec![0, 0, 0, 0]);
}

#[test]
fn five_bit_expansion_fixed_points() {
    // an all-ones channel becomes 0xFF and an all-zero channel stays 0
    let white = Texture::rgba16_to_rgba32(&[0xFF, 0xFF]);
    assert_eq!(white, vec![255, 255, 255, 255]);
    let clear = Texture::rgba16_to_rgba32(&[0x00, 0x00]);
    assert_eq!(clear, vec![0, 0, 0, 0]);
}

#[test]
fn four_bit_expansion_fixed_points() {
    // I4: nibble 0 maps to 0 and nibble 15 to 255, both opaque
    assert_eq!(
        Texture::i4_to_rgba32(&[0x0F]),
        vec![0, 0, 0, 255, 255, 255, 255, 255]
    );
    assert_eq!(
        Texture::i4_to_rgba32(&[0xF0]),
        vec![255, 255, 255, 255, 0, 0, 0, 255]
    );
}

#[test]
fn i8_pixels() {
    assert_eq!(Texture::i8_to_rgba32(&[0x80]), vec![0x80, 0x80, 0x80, 255]);
}

#[test]
fn ia8_pixels() {
    // intensity in the high nibble, alpha in the low nibble
    assert_eq!(Texture::ia8_to_rgba32(&[0xF0]), vec![255, 255, 255, 0]);
    assert_eq!(Texture::ia8_to_rgba32(&[0x0F]), vec![0, 0, 0, 255]);
    assert_eq!(Texture::ia8_to_rgba32(&[0xA5]), vec![0xAA, 0xAA, 0xAA, 0x55]);
}

#[test]
fn ia4_pixels() {
    // two texels per byte: 3 bits intensity, 1 bit alpha
    assert_eq!(
        Texture::ia4_to_rgba32(&[0xFF]),
        vec![255, 255, 255, 255, 255, 255, 255, 255]
    );
    assert_eq!(
        Texture::ia4_to_rgba32(&[0x10]),
        vec![0, 0, 0, 255, 0, 0, 0, 0]
    );
}

#[test]
fn ci4_uses_palette() {
    // palette entry 0 is solid red, entry 1 is clear black
    let mut pal = vec![0u8; 0x20];
    pal[0] = 0xF8;
    pal[1] = 0x01;
    let out = Texture::ci4_to_rgba32(&[0x01], &pal);
    assert_eq!(out, vec![255, 0, 0, 255, 0, 0, 0, 0]);
}

#[test]
fn ci8_uses_palette() {
    let mut pal = vec![0u8; 0x200];
    pal[2] = 0x07;
    pal[3] = 0xC1;
    let out = Texture::ci8_to_rgba32(&[0x01], &pal);
    assert_eq!(out, vec![0, 255, 0, 255]);
}

#[test]
fn texture_splits_palette() {
    // a CI4 texture takes its 32-byte palette off the front
    let mut bin = vec![0u8; 0x22];
    bin[0] = 0xF8;
    bin[1] = 0x01;
    bin[0x20] = 0x00;
    bin[0x21] = 0x00;
    let t = Texture::new(ImgFmt::CI4, 4, 1, &bin);
    let px = t.to_rgba32();
    assert_eq!(px.len(), 16);
    assert_eq!(&px[0..4], &[255, 0, 0, 255]);
}

#[test]
fn texture_rgba32_passthrough() {
    let bin = vec![1, 2, 3, 4];
    let t = Texture::new(ImgFmt::RGBA32, 1, 1, &bin);
    assert_eq!(t.to_rgba32(), bin);
}

#[test]
fn one_bit_alpha_is_crisp() {
    // every alpha byte of an RGBA16 conversion is 0x00 or 0xFF
    let src: Vec<u8> = (0u16..256).flat_map(|v| (v * 257).to_be_bytes()).collect();
    let out = Texture::rgba16_to_rgba32(&src);
    for px in out.chunks(4) {
        assert!(px[3] == 0 || px[3] == 255);
    }
}
