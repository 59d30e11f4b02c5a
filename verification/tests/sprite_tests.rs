use bk_codec::pixels::ImgFmt;
use bk_codec::sprite::Sprite;

/// One RGBA16 sprite with a single frame of the given size holding one
/// chunk with the given declared origin, painted solid red.
fn rgba16_sprite(w: u16, h: u16, chunks: &[(i16, i16, u16, u16)]) -> Vec<u8> {
    let mut b: Vec<u8> = Vec::new();
    b.extend_from_slice(&1u16.to_be_bytes());
    b.extend_from_slice(&0x0400u16.to_be_bytes());
    b.extend_from_slice(&[0x00; 12]);
    // one table entry: the frame starts right after the table
    b.extend_from_slice(&0u32.to_be_bytes());
    // frame header: origin, size, chunk count, ten unused bytes
    b.extend_from_slice(&0i16.to_be_bytes());
    b.extend_from_slice(&0i16.to_be_bytes());
    b.extend_from_slice(&w.to_be_bytes());
    b.extend_from_slice(&h.to_be_bytes());
    b.extend_from_slice(&(chunks.len() as u16).to_be_bytes());
    b.extend_from_slice(&[0x00; 10]);
    for &(cx, cy, cw, ch) in chunks {
        b.extend_from_slice(&cx.to_be_bytes());
        b.extend_from_slice(&cy.to_be_bytes());
        b.extend_from_slice(&cw.to_be_bytes());
        b.extend_from_slice(&ch.to_be_bytes());
        while b.len() % 8 != 0 {
            b.push(0);
        }
        for _ in 0..(cw as usize) * (ch as usize) {
            b.extend_from_slice(&[0xF8, 0x01]);
        }
    }
    b
}

#[test]
fn sprite_keeps_its_bytes() {
    let b = rgba16_sprite(4, 4, &[(10, 10, 4, 4)]);
    let s = Sprite::from_bytes(&b).unwrap();
    assert_eq!(s.to_bytes(), b);
}

#[test]
fn solitary_chunk_paints_at_origin() {
    // the chunk declares origin (10, 10), but a solitary chunk is a
    // full-frame image and paints at (0, 0)
    let b = rgba16_sprite(4, 4, &[(10, 10, 4, 4)]);
    let s = Sprite::from_bytes(&b).unwrap();
    assert_eq!(s.frame.len(), 1);
    let f = &s.frame[0];
    assert_eq!((f.w, f.h), (4, 4));
    assert_eq!(f.pixel_data.len(), 64);
    for px in f.pixel_data.chunks(4) {
        assert_eq!(px, &[255, 0, 0, 255]);
    }
}

#[test]
fn two_chunks_respect_their_origins() {
    // with two chunks the declared origins hold; the second lies
    // outside the canvas and is dropped
    let b = rgba16_sprite(2, 2, &[(0, 0, 1, 1), (10, 10, 1, 1)]);
    let s = Sprite::from_bytes(&b).unwrap();
    let f = &s.frame[0];
    assert_eq!(f.pixel_data.len(), 16);
    assert_eq!(&f.pixel_data[0..4], &[255, 0, 0, 255]);
    assert_eq!(&f.pixel_data[4..], &[0u8; 12]);
}

#[test]
fn frame_canvas_has_rgba8_shape() {
    let b = rgba16_sprite(3, 5, &[(0, 0, 3, 5)]);
    let s = Sprite::from_bytes(&b).unwrap();
    let f = &s.frame[0];
    assert_eq!(f.pixel_data.len(), 4 * f.w * f.h);
    for px in f.pixel_data.chunks(4) {
        assert!(px[3] == 0 || px[3] == 255);
    }
}

#[test]
fn unknown_format_is_kept_raw() {
    let mut b: Vec<u8> = Vec::new();
    b.extend_from_slice(&1u16.to_be_bytes());
    b.extend_from_slice(&0x0123u16.to_be_bytes());
    b.extend_from_slice(&[0xAB; 8]);
    let s = Sprite::from_bytes(&b).unwrap();
    assert_eq!(s.format, ImgFmt::Unknown(0x0123));
    assert!(s.frame.is_empty());
    assert_eq!(s.to_bytes(), b);
}

#[test]
fn special_frame_count_reads_one_chunk() {
    // a frame count beyond 0x100 marks the single-chunk form at
    // offset 8
    let mut b: Vec<u8> = Vec::new();
    b.extend_from_slice(&0x0101u16.to_be_bytes());
    b.extend_from_slice(&0x0400u16.to_be_bytes());
    b.extend_from_slice(&[0x00; 4]);
    // chunk header at offset 8, pixels at the next multiple of eight
    b.extend_from_slice(&0i16.to_be_bytes());
    b.extend_from_slice(&0i16.to_be_bytes());
    b.extend_from_slice(&2u16.to_be_bytes());
    b.extend_from_slice(&1u16.to_be_bytes());
    b.extend_from_slice(&[0xF8, 0x01, 0x00, 0x00]);
    let s = Sprite::from_bytes(&b).unwrap();
    assert_eq!(s.frame.len(), 1);
    let f = &s.frame[0];
    assert_eq!((f.w, f.h), (2, 1));
    assert_eq!(f.pixel_data, vec![255, 0, 0, 255, 0, 0, 0, 0]);
    assert_eq!(s.to_bytes(), b);
}

#[test]
fn truncated_sprite_is_rejected() {
    assert!(Sprite::from_bytes(&[0x00]).is_err());
    let b = rgba16_sprite(4, 4, &[(0, 0, 4, 4)]);
    assert!(Sprite::from_bytes(&b[..b.len() - 1]).is_err());
}
