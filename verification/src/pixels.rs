//! The pixel-format conversion core: the eight source formats to
//! canonical RGBA8, with the exact bit-replication rules of the
//! console's fixed-function hardware.
//!
//! A 16-bit color source (RGBA16 and palette entries) is one big-endian
//! halfword laid out as 5 bits red, 5 green, 5 blue, 1 alpha.  Expansion
//! to 8 bits per channel replicates the high-order bits into the bottom;
//! a one-bit alpha expands to `0x00` or `0xFF`.

use vstd::prelude::*;
use crate::bytes::u16v;

verus! {

/// A source pixel format.
#[derive(Clone, Copy, Debug, PartialEq, Eq, Structural)]
pub enum ImgFmt {
    CI4,
    CI8,
    I4,
    I8,
    RGBA16,
    RGBA32,
    IA4,
    IA8,
    Unknown(u16),
}

/// 5-bit channel to 8 bits: the three high-order bits fill the bottom.
pub open spec fn expand5(c: u8) -> u8
    recommends
        c < 32,
{
    ((c as int) * 8 + (c as int) / 4) as u8
}

/// 4-bit channel to 8 bits: the nibble fills both halves.
pub open spec fn expand4(n: u8) -> u8
    recommends
        n < 16,
{
    ((n as int) * 16 + (n as int)) as u8
}

/// 3-bit channel to 8 bits: replicated across the byte.
pub open spec fn expand3(i: u8) -> u8
    recommends
        i < 8,
{
    ((i as int) * 32 + (i as int) * 4 + (i as int) / 2) as u8
}

/// 1-bit channel to 8 bits: all zeros or all ones.
pub open spec fn expand1(a: u8) -> u8
    recommends
        a < 2,
{
    if a == 0 {
        0
    } else {
        255
    }
}

/// One RGB5551 halfword, stored big-endian as `hi lo`, as an RGBA8
/// pixel.
pub open spec fn rgba16_px(hi: u8, lo: u8) -> Seq<u8> {
    let v = u16v(hi, lo) as int;
    seq![
        expand5((v / 2048) as u8),
        expand5((v / 64 % 32) as u8),
        expand5((v / 2 % 32) as u8),
        expand1((v % 2) as u8),
    ]
}

/// RGBA16 source bytes as RGBA8, pixel by pixel; a trailing odd byte is
/// dropped.
pub open spec fn rgba16_pixels(s: Seq<u8>) -> Seq<u8>
    decreases s.len(),
{
    if s.len() < 2 {
        Seq::empty()
    } else {
        rgba16_px(s[0], s[1]) + rgba16_pixels(s.skip(2))
    }
}

/// The RGBA8 pixel selected from an RGB5551 palette by `idx`.
pub open spec fn pal_px(pal: Seq<u8>, idx: int) -> Seq<u8>
    recommends
        0 <= idx,
        2 * idx + 1 < pal.len(),
{
    rgba16_px(pal[2 * idx], pal[2 * idx + 1])
}

/// CI4 source bytes as RGBA8: each byte holds two 4-bit palette
/// indices.
pub open spec fn ci4_pixels(s: Seq<u8>, pal: Seq<u8>) -> Seq<u8>
    decreases s.len(),
{
    if s.len() == 0 {
        Seq::empty()
    } else {
        pal_px(pal, s[0] as int / 16) + pal_px(pal, s[0] as int % 16) + ci4_pixels(
            s.skip(1),
            pal,
        )
    }
}

/// CI8 source bytes as RGBA8: each byte is one palette index.
pub open spec fn ci8_pixels(s: Seq<u8>, pal: Seq<u8>) -> Seq<u8>
    decreases s.len(),
{
    if s.len() == 0 {
        Seq::empty()
    } else {
        pal_px(pal, s[0] as int) + ci8_pixels(s.skip(1), pal)
    }
}

/// I4 source bytes as RGBA8: two intensity nibbles per byte, opaque.
pub open spec fn i4_pixels(s: Seq<u8>) -> Seq<u8>
    decreases s.len(),
{
    if s.len() == 0 {
        Seq::empty()
    } else {
        let v1 = expand4((s[0] as int / 16) as u8);
        let v2 = expand4((s[0] as int % 16) as u8);
        seq![v1, v1, v1, 255u8, v2, v2, v2, 255u8] + i4_pixels(s.skip(1))
    }
}

/// I8 source bytes as RGBA8: one intensity byte per pixel, opaque.
pub open spec fn i8_pixels(s: Seq<u8>) -> Seq<u8>
    decreases s.len(),
{
    if s.len() == 0 {
        Seq::empty()
    } else {
        seq![s[0], s[0], s[0], 255u8] + i8_pixels(s.skip(1))
    }
}

/// IA4 source bytes as RGBA8: two texels per byte, each 3 bits
/// intensity and 1 bit alpha.
pub open spec fn ia4_pixels(s: Seq<u8>) -> Seq<u8>
    decreases s.len(),
{
    if s.len() == 0 {
        Seq::empty()
    } else {
        let v = s[0] as int;
        let i1 = expand3((v / 32) as u8);
        let a1 = expand1((v / 16 % 2) as u8);
        let i2 = expand3((v / 2 % 8) as u8);
        let a2 = expand1((v % 2) as u8);
        seq![i1, i1, i1, a1, i2, i2, i2, a2] + ia4_pixels(s.skip(1))
    }
}

/// IA8 source bytes as RGBA8: one texel per byte, intensity in the high
/// nibble and alpha in the low nibble, both replicated.
pub open spec fn ia8_pixels(s: Seq<u8>) -> Seq<u8>
    decreases s.len(),
{
    if s.len() == 0 {
        Seq::empty()
    } else {
        let v = expand4((s[0] as int / 16) as u8);
        let a = expand4((s[0] as int % 16) as u8);
        seq![v, v, v, a] + ia8_pixels(s.skip(1))
    }
}

/// Bit-replication fixed points: an all-zero channel stays zero and an
/// all-ones channel becomes `0xFF`, for the 5-to-8 and the 4-to-8
/// expansion.
pub proof fn lemma_bit_replication_fixed_points()
    ensures
        expand5(0) == 0,
        expand5(31) == 255,
        expand4(0) == 0,
        expand4(15) == 255,
{
}

/// A texture: a format, pixel dimensions, the palette (present exactly
/// for the indexed formats) and the raw pixel bytes.
#[derive(Clone, Debug)]
pub struct Texture {
    pub texture_type: ImgFmt,
    pub w: usize,
    pub h: usize,
    pub palette: Option<Vec<u8>>,
    pub pixel_data: Vec<u8>,
}

/// What a well-formed texture looks like: the palette is there, at its
/// full size, exactly when the format is indexed.
pub open spec fn texture_wf(t: Texture) -> bool {
    match t.texture_type {
        ImgFmt::CI4 => t.palette matches Some(p) && p@.len() == 0x20,
        ImgFmt::CI8 => t.palette matches Some(p) && p@.len() == 0x200,
        _ => t.palette is None,
    }
}

/// The canonical RGBA8 pixels of a texture.
pub open spec fn texture_pixels(fmt: ImgFmt, pal: Option<Seq<u8>>, data: Seq<u8>) -> Seq<u8> {
    match fmt {
        ImgFmt::CI4 => ci4_pixels(data, pal->0),
        ImgFmt::CI8 => ci8_pixels(data, pal->0),
        ImgFmt::RGBA16 => rgba16_pixels(data),
        ImgFmt::RGBA32 => data,
        ImgFmt::I4 => i4_pixels(data),
        ImgFmt::I8 => i8_pixels(data),
        ImgFmt::IA4 => ia4_pixels(data),
        ImgFmt::IA8 => ia8_pixels(data),
        ImgFmt::Unknown(_) => Seq::empty(),
    }
}

/// Append one RGB5551 halfword, expanded to RGBA8.
fn push_rgba16_px(out: &mut Vec<u8>, hi: u8, lo: u8)
    ensures
        final(out)@ == old(out)@ + rgba16_px(hi, lo),
{
    let v: u16 = (hi as u16) * 0x100 + (lo as u16);
    let r5: u8 = (v / 2048) as u8;
    let g5: u8 = (v / 64 % 32) as u8;
    let b5: u8 = (v / 2 % 32) as u8;
    let a1: u8 = (v % 2) as u8;
    out.push(r5 * 8 + r5 / 4);
    out.push(g5 * 8 + g5 / 4);
    out.push(b5 * 8 + b5 / 4);
    out.push(if a1 == 0 { 0u8 } else { 255u8 });
    proof {
        assert(u16v(hi, lo) == v);
        assert(out@ =~= old(out)@ + rgba16_px(hi, lo));
    }
}

impl Texture {
    /// Convert RGBA16 source bytes to RGBA8.  Relies on nothing but the
    /// bit-replication rules; a trailing odd byte is dropped.
    #[verifier::loop_isolation(false)]
    pub fn rgba16_to_rgba32(rgba16: &[u8]) -> (r: Vec<u8>)
        ensures
            r@ == rgba16_pixels(rgba16@),
    {
        let ghost s = rgba16@;
        let mut out: Vec<u8> = Vec::new();
        let mut i: usize = 0;
        proof {
            assert(s.skip(0) =~= s);
            assert(Seq::<u8>::empty() + rgba16_pixels(s) =~= rgba16_pixels(s));
        }
        while rgba16.len() - i >= 2
            invariant
                i <= s.len(),
                rgba16_pixels(s) == out@ + rgba16_pixels(s.skip(i as int)),
            decreases s.len() - i,
        {
            let ghost ob = out@;
            let ghost i0 = i as int;
            push_rgba16_px(&mut out, rgba16[i], rgba16[i + 1]);
            proof {
                assert(s.skip(i0)[0] == s[i0]);
                assert(s.skip(i0)[1] == s[i0 + 1]);
                assert(s.skip(i0).skip(2) =~= s.skip(i0 + 2));
                assert(rgba16_pixels(s.skip(i0)) == rgba16_px(s[i0], s[i0 + 1]) + rgba16_pixels(
                    s.skip(i0 + 2),
                ));
                assert(ob + (rgba16_px(s[i0], s[i0 + 1]) + rgba16_pixels(s.skip(i0 + 2))) =~= (ob
                    + rgba16_px(s[i0], s[i0 + 1])) + rgba16_pixels(s.skip(i0 + 2)));
            }
            i = i + 2;
        }
        proof {
            assert(rgba16_pixels(s.skip(i as int)) =~= Seq::<u8>::empty());
            assert(out@ + Seq::<u8>::empty() =~= out@);
        }
        out
    }

    /// Convert CI4 source bytes to RGBA8 through a 16-entry RGB5551
    /// palette; each source byte holds two indices.
    #[verifier::loop_isolation(false)]
    pub fn ci4_to_rgba32(ci4: &[u8], palette: &[u8]) -> (r: Vec<u8>)
        requires
            palette@.len() >= 0x20,
        ensures
            r@ == ci4_pixels(ci4@, palette@),
    {
        let ghost s = ci4@;
        let ghost p = palette@;
        let mut out: Vec<u8> = Vec::new();
        let mut i: usize = 0;
        proof {
            assert(s.skip(0) =~= s);
            assert(Seq::<u8>::empty() + ci4_pixels(s, p) =~= ci4_pixels(s, p));
        }
        while i < ci4.len()
            invariant
                i <= s.len(),
                ci4_pixels(s, p) == out@ + ci4_pixels(s.skip(i as int), p),
            decreases s.len() - i,
        {
            let ghost ob = out@;
            let ghost i0 = i as int;
            let b = ci4[i];
            let hi = (b / 16) as usize;
            let lo = (b % 16) as usize;
            push_rgba16_px(&mut out, palette[2 * hi], palette[2 * hi + 1]);
            push_rgba16_px(&mut out, palette[2 * lo], palette[2 * lo + 1]);
            proof {
                assert(s.skip(i0)[0] == s[i0]);
                assert(s.skip(i0).skip(1) =~= s.skip(i0 + 1));
                assert(ci4_pixels(s.skip(i0), p) == pal_px(p, s[i0] as int / 16) + pal_px(
                    p,
                    s[i0] as int % 16,
                ) + ci4_pixels(s.skip(i0 + 1), p));
                assert(out@ =~= ob + pal_px(p, s[i0] as int / 16) + pal_px(p, s[i0] as int % 16));
                assert(ob + (pal_px(p, s[i0] as int / 16) + pal_px(p, s[i0] as int % 16)
                    + ci4_pixels(s.skip(i0 + 1), p)) =~= ((ob + pal_px(p, s[i0] as int / 16))
                    + pal_px(p, s[i0] as int % 16)) + ci4_pixels(s.skip(i0 + 1), p));
            }
            i = i + 1;
        }
        proof {
            assert(ci4_pixels(s.skip(i as int), p) =~= Seq::<u8>::empty());
            assert(out@ + Seq::<u8>::empty() =~= out@);
        }
        out
    }

    /// Convert CI8 source bytes to RGBA8 through a 256-entry RGB5551
    /// palette.
    #[verifier::loop_isolation(false)]
    pub fn ci8_to_rgba32(ci8: &[u8], palette: &[u8]) -> (r: Vec<u8>)
        requires
            palette@.len() >= 0x200,
        ensures
            r@ == ci8_pixels(ci8@, palette@),
    {
        let ghost s = ci8@;
        let ghost p = palette@;
        let mut out: Vec<u8> = Vec::new();
        let mut i: usize = 0;
        proof {
            assert(s.skip(0) =~= s);
            assert(Seq::<u8>::empty() + ci8_pixels(s, p) =~= ci8_pixels(s, p));
        }
        while i < ci8.len()
            invariant
                i <= s.len(),
                ci8_pixels(s, p) == out@ + ci8_pixels(s.skip(i as int), p),
            decreases s.len() - i,
        {
            let ghost ob = out@;
            let ghost i0 = i as int;
            let idx = ci8[i] as usize;
            push_rgba16_px(&mut out, palette[2 * idx], palette[2 * idx + 1]);
            proof {
                assert(s.skip(i0)[0] == s[i0]);
                assert(s.skip(i0).skip(1) =~= s.skip(i0 + 1));
                assert(ci8_pixels(s.skip(i0), p) == pal_px(p, s[i0] as int) + ci8_pixels(
                    s.skip(i0 + 1),
                    p,
                ));
                assert(ob + (pal_px(p, s[i0] as int) + ci8_pixels(s.skip(i0 + 1), p)) =~= (ob
                    + pal_px(p, s[i0] as int)) + ci8_pixels(s.skip(i0 + 1), p));
            }
            i = i + 1;
        }
        proof {
            assert(ci8_pixels(s.skip(i as int), p) =~= Seq::<u8>::empty());
            assert(out@ + Seq::<u8>::empty() =~= out@);
        }
        out
    }

    /// Convert I4 source bytes to RGBA8: two opaque grey pixels per
    /// byte.
    #[verifier::loop_isolation(false)]
    pub fn i4_to_rgba32(i_4: &[u8]) -> (r: Vec<u8>)
        ensures
            r@ == i4_pixels(i_4@),
    {
        let ghost s = i_4@;
        let mut out: Vec<u8> = Vec::new();
        let mut i: usize = 0;
        proof {
            assert(s.skip(0) =~= s);
            assert(Seq::<u8>::empty() + i4_pixels(s) =~= i4_pixels(s));
        }
        while i < i_4.len()
            invariant
                i <= s.len(),
                i4_pixels(s) == out@ + i4_pixels(s.skip(i as int)),
            decreases s.len() - i,
        {
            let ghost ob = out@;
            let ghost i0 = i as int;
            let b = i_4[i];
            let v1 = (b / 16) * 16 + b / 16;
            let v2 = (b % 16) * 16 + b % 16;
            out.push(v1);
            out.push(v1);
            out.push(v1);
            out.push(255);
            out.push(v2);
            out.push(v2);
            out.push(v2);
            out.push(255);
            proof {
                assert(s.skip(i0)[0] == s[i0]);
                assert(s.skip(i0).skip(1) =~= s.skip(i0 + 1));
                let px = seq![v1, v1, v1, 255u8, v2, v2, v2, 255u8];
                assert(out@ =~= ob + px);
                assert(i4_pixels(s.skip(i0)) == px + i4_pixels(s.skip(i0 + 1)));
                assert(ob + (px + i4_pixels(s.skip(i0 + 1))) =~= (ob + px) + i4_pixels(
                    s.skip(i0 + 1),
                ));
            }
            i = i + 1;
        }
        proof {
            assert(i4_pixels(s.skip(i as int)) =~= Seq::<u8>::empty());
            assert(out@ + Seq::<u8>::empty() =~= out@);
        }
        out
    }

    /// Convert I8 source bytes to RGBA8: one opaque grey pixel per
    /// byte.
    #[verifier::loop_isolation(false)]
    pub fn i8_to_rgba32(i_8: &[u8]) -> (r: Vec<u8>)
        ensures
            r@ == i8_pixels(i_8@),
    {
        let ghost s = i_8@;
        let mut out: Vec<u8> = Vec::new();
        let mut i: usize = 0;
        proof {
            assert(s.skip(0) =~= s);
            assert(Seq::<u8>::empty() + i8_pixels(s) =~= i8_pixels(s));
        }
        while i < i_8.len()
            invariant
                i <= s.len(),
                i8_pixels(s) == out@ + i8_pixels(s.skip(i as int)),
            decreases s.len() - i,
        {
            let ghost ob = out@;
            let ghost i0 = i as int;
            let b = i_8[i];
            out.push(b);
            out.push(b);
            out.push(b);
            out.push(255);
            proof {
                assert(s.skip(i0)[0] == s[i0]);
                assert(s.skip(i0).skip(1) =~= s.skip(i0 + 1));
                let px = seq![b, b, b, 255u8];
                assert(out@ =~= ob + px);
                assert(i8_pixels(s.skip(i0)) == px + i8_pixels(s.skip(i0 + 1)));
                assert(ob + (px + i8_pixels(s.skip(i0 + 1))) =~= (ob + px) + i8_pixels(
                    s.skip(i0 + 1),
                ));
            }
            i = i + 1;
        }
        proof {
            assert(i8_pixels(s.skip(i as int)) =~= Seq::<u8>::empty());
            assert(out@ + Seq::<u8>::empty() =~= out@);
        }
        out
    }

    /// Convert IA4 source bytes to RGBA8: two grey texels per byte,
    /// each with a one-bit alpha.
    #[verifier::loop_isolation(false)]
    pub fn ia4_to_rgba32(ia4: &[u8]) -> (r: Vec<u8>)
        ensures
            r@ == ia4_pixels(ia4@),
    {
        let ghost s = ia4@;
        let mut out: Vec<u8> = Vec::new();
        let mut i: usize = 0;
        proof {
            assert(s.skip(0) =~= s);
            assert(Seq::<u8>::empty() + ia4_pixels(s) =~= ia4_pixels(s));
        }
        while i < ia4.len()
            invariant
                i <= s.len(),
                ia4_pixels(s) == out@ + ia4_pixels(s.skip(i as int)),
            decreases s.len() - i,
        {
            let ghost ob = out@;
            let ghost i0 = i as int;
            let b = ia4[i];
            let t1 = b / 32;
            let i1 = t1 * 32 + t1 * 4 + t1 / 2;
            let a1: u8 = if b / 16 % 2 == 0 { 0 } else { 255 };
            let t2 = b / 2 % 8;
            let i2 = t2 * 32 + t2 * 4 + t2 / 2;
            let a2: u8 = if b % 2 == 0 { 0 } else { 255 };
            out.push(i1);
            out.push(i1);
            out.push(i1);
            out.push(a1);
            out.push(i2);
            out.push(i2);
            out.push(i2);
            out.push(a2);
            proof {
                assert(s.skip(i0)[0] == s[i0]);
                assert(s.skip(i0).skip(1) =~= s.skip(i0 + 1));
                let px = seq![i1, i1, i1, a1, i2, i2, i2, a2];
                assert(out@ =~= ob + px);
                assert(ia4_pixels(s.skip(i0)) == px + ia4_pixels(s.skip(i0 + 1)));
                assert(ob + (px + ia4_pixels(s.skip(i0 + 1))) =~= (ob + px) + ia4_pixels(
                    s.skip(i0 + 1),
                ));
            }
            i = i + 1;
        }
        proof {
            assert(ia4_pixels(s.skip(i as int)) =~= Seq::<u8>::empty());
            assert(out@ + Seq::<u8>::empty() =~= out@);
        }
        out
    }

    /// Convert IA8 source bytes to RGBA8: intensity in the high nibble,
    /// alpha in the low nibble, both replicated.
    #[verifier::loop_isolation(false)]
    pub fn ia8_to_rgba32(ia8: &[u8]) -> (r: Vec<u8>)
        ensures
            r@ == ia8_pixels(ia8@),
    {
        let ghost s = ia8@;
        let mut out: Vec<u8> = Vec::new();
        let mut i: usize = 0;
        proof {
            assert(s.skip(0) =~= s);
            assert(Seq::<u8>::empty() + ia8_pixels(s) =~= ia8_pixels(s));
        }
        while i < ia8.len()
            invariant
                i <= s.len(),
                ia8_pixels(s) == out@ + ia8_pixels(s.skip(i as int)),
            decreases s.len() - i,
        {
            let ghost ob = out@;
            let ghost i0 = i as int;
            let b = ia8[i];
            let v = (b / 16) * 16 + b / 16;
            let a = (b % 16) * 16 + b % 16;
            out.push(v);
            out.push(v);
            out.push(v);
            out.push(a);
            proof {
                assert(s.skip(i0)[0] == s[i0]);
                assert(s.skip(i0).skip(1) =~= s.skip(i0 + 1));
                let px = seq![v, v, v, a];
                assert(out@ =~= ob + px);
                assert(ia8_pixels(s.skip(i0)) == px + ia8_pixels(s.skip(i0 + 1)));
                assert(ob + (px + ia8_pixels(s.skip(i0 + 1))) =~= (ob + px) + ia8_pixels(
                    s.skip(i0 + 1),
                ));
            }
            i = i + 1;
        }
        proof {
            assert(ia8_pixels(s.skip(i as int)) =~= Seq::<u8>::empty());
            assert(out@ + Seq::<u8>::empty() =~= out@);
        }
        out
    }

    /// Build a texture from raw bytes; for the indexed formats the
    /// palette is split off the front of the buffer.
    pub fn new(texture_type: ImgFmt, w: usize, h: usize, bin: &[u8]) -> (r: Texture)
        requires
            texture_type == ImgFmt::CI4 ==> bin@.len() >= 0x20,
            texture_type == ImgFmt::CI8 ==> bin@.len() >= 0x200,
        ensures
            texture_wf(r),
            r.texture_type == texture_type,
            r.w == w,
            r.h == h,
            texture_type == ImgFmt::CI4 ==> r.palette->0@ == bin@.take(0x20) && r.pixel_data@
                == bin@.skip(0x20),
            texture_type == ImgFmt::CI8 ==> r.palette->0@ == bin@.take(0x200) && r.pixel_data@
                == bin@.skip(0x200),
            !(texture_type == ImgFmt::CI4 || texture_type == ImgFmt::CI8) ==> r.palette is None
                && r.pixel_data@ == bin@,
    {
        let pal_len: usize = match texture_type {
            ImgFmt::CI4 => 0x20,
            ImgFmt::CI8 => 0x200,
            _ => 0,
        };
        if pal_len > 0 {
            let pal = vstd::slice::slice_to_vec(vstd::slice::slice_subrange(bin, 0, pal_len));
            let data = vstd::slice::slice_to_vec(
                vstd::slice::slice_subrange(bin, pal_len, bin.len()),
            );
            proof {
                assert(bin@.subrange(0, pal_len as int) =~= bin@.take(pal_len as int));
                assert(bin@.subrange(pal_len as int, bin@.len() as int) =~= bin@.skip(
                    pal_len as int,
                ));
            }
            Texture { texture_type, w, h, palette: Some(pal), pixel_data: data }
        } else {
            let data = vstd::slice::slice_to_vec(vstd::slice::slice_subrange(bin, 0, bin.len()));
            proof {
                assert(bin@.subrange(0, bin@.len() as int) =~= bin@);
            }
            Texture { texture_type, w, h, palette: None, pixel_data: data }
        }
    }

    /// The texture's canonical RGBA8 pixels.  An indexed format without
    /// its palette is a programmer error and is ruled out by the
    /// well-formedness requirement; an unknown format has no pixel
    /// interpretation.
    pub fn to_rgba32(&self) -> (r: Vec<u8>)
        requires
            texture_wf(*self),
            !(self.texture_type matches ImgFmt::Unknown(_)),
        ensures
            r@ == texture_pixels(
                self.texture_type,
                match self.palette {
                    Some(p) => Some(p@),
                    None => None,
                },
                self.pixel_data@,
            ),
    {
        match self.texture_type {
            ImgFmt::CI4 => {
                match &self.palette {
                    Some(pal) => Texture::ci4_to_rgba32(
                        self.pixel_data.as_slice(),
                        pal.as_slice(),
                    ),
                    None => {
                        proof {
                            assert(false);
                        }
                        Vec::new()
                    },
                }
            },
            ImgFmt::CI8 => {
                match &self.palette {
                    Some(pal) => Texture::ci8_to_rgba32(
                        self.pixel_data.as_slice(),
                        pal.as_slice(),
                    ),
                    None => {
                        proof {
                            assert(false);
                        }
                        Vec::new()
                    },
                }
            },
            ImgFmt::RGBA16 => Texture::rgba16_to_rgba32(self.pixel_data.as_slice()),
            ImgFmt::RGBA32 => {
                let mut out: Vec<u8> = Vec::new();
                let mut i: usize = 0;
                while i < self.pixel_data.len()
                    invariant
                        i <= self.pixel_data@.len(),
                        out@ =~= self.pixel_data@.take(i as int),
                    decreases self.pixel_data@.len() - i,
                {
                    out.push(self.pixel_data[i]);
                    i = i + 1;
                    assert(out@ =~= self.pixel_data@.take(i as int));
                }
                proof {
                    assert(self.pixel_data@.take(self.pixel_data@.len() as int) =~= self
                        .pixel_data@);
                }
                out
            },
            ImgFmt::I4 => Texture::i4_to_rgba32(self.pixel_data.as_slice()),
            ImgFmt::I8 => Texture::i8_to_rgba32(self.pixel_data.as_slice()),
            ImgFmt::IA4 => Texture::ia4_to_rgba32(self.pixel_data.as_slice()),
            ImgFmt::IA8 => Texture::ia8_to_rgba32(self.pixel_data.as_slice()),
            ImgFmt::Unknown(_) => {
                proof {
                    assert(false);
                }
                Vec::new()
            },
        }
    }
}

} // verus!
