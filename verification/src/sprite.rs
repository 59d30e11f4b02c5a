//! The sprite codec: a multi-frame container whose frames composite one
//! or more sub-rectangles onto a transparent RGBA8 canvas.
//!
//! A sprite file begins with an unsigned-16 frame count and an
//! unsigned-16 format code.  With a count of at most 0x100 a 16-byte
//! header is followed by a table of 32-bit frame offsets relative to the
//! end of that table; a larger count marks the special single-frame form
//! holding one RGBA16 chunk at offset 8.  The raw input bytes are kept,
//! so re-emitting a sprite reproduces its file byte for byte.

use vstd::prelude::*;
use crate::bytes::{i16v, u16v, u32v};
use crate::error::{ErrorKind, ParseError, Phase};
use crate::pixels::{
    ci4_pixels, ci8_pixels, expand1, i4_pixels, i8_pixels, ia4_pixels, ia8_pixels, pal_px,
    rgba16_pixels, rgba16_px, ImgFmt, Texture,
};

verus! {

/// Bits per source pixel of a format (zero for the unknown format).
pub open spec fn bits_per_pixel(fmt: ImgFmt) -> int {
    match fmt {
        ImgFmt::I4 | ImgFmt::IA4 | ImgFmt::CI4 => 4,
        ImgFmt::I8 | ImgFmt::IA8 | ImgFmt::CI8 => 8,
        ImgFmt::RGBA16 => 16,
        ImgFmt::RGBA32 => 32,
        ImgFmt::Unknown(_) => 0,
    }
}

/// The next multiple of eight at or after `i`.
pub open spec fn align8(i: int) -> int {
    ((i + 7) / 8) * 8
}

/// How many pixel bytes a `w` by `h` chunk of this format carries.
pub open spec fn chunk_data_size(fmt: ImgFmt, w: int, h: int) -> int {
    w * h * bits_per_pixel(fmt) / 8
}

/// Whether a chunk parse at position `p` fits inside `b`.
pub open spec fn chunk_fits(b: Seq<u8>, p: int, fmt: ImgFmt) -> bool {
    &&& p + 8 <= b.len()
    &&& align8(p + 8) + chunk_data_size(
        fmt,
        u16v(b[p + 4], b[p + 5]) as int,
        u16v(b[p + 6], b[p + 7]) as int,
    ) <= b.len()
}

/// A sub-rectangle of a frame: its destination origin, its dimensions,
/// and its raw pixel bytes.
#[derive(Clone, Debug)]
pub struct SpriteChunk {
    pub x: i16,
    pub y: i16,
    pub w: u16,
    pub h: u16,
    pub pixel_data: Vec<u8>,
}

impl SpriteChunk {
    /// Parse one chunk at `*file_offset`: an 8-byte header, alignment of
    /// the cursor up to the next multiple of eight, then the pixel
    /// bytes.  On success the cursor lands after the pixel bytes.
    pub fn new(bin: &[u8], file_offset: &mut usize, format: &ImgFmt) -> (res: Result<
        SpriteChunk,
        ParseError,
    >)
        ensures
            match res {
                Ok(c) => {
                    let p = (*old(file_offset)) as int;
                    &&& chunk_fits(bin@, p, *format)
                    &&& c.x == i16v(bin@[p], bin@[p + 1])
                    &&& c.y == i16v(bin@[p + 2], bin@[p + 3])
                    &&& c.w == u16v(bin@[p + 4], bin@[p + 5])
                    &&& c.h == u16v(bin@[p + 6], bin@[p + 7])
                    &&& c.pixel_data@ == bin@.subrange(
                        align8(p + 8),
                        align8(p + 8) + chunk_data_size(*format, c.w as int, c.h as int),
                    )
                    &&& *final(file_offset) == align8(p + 8) + chunk_data_size(
                        *format,
                        c.w as int,
                        c.h as int,
                    )
                    &&& *final(file_offset) <= bin@.len()
                },
                Err(e) => {
                    &&& !chunk_fits(bin@, (*old(file_offset)) as int, *format)
                    &&& *final(file_offset) == *old(file_offset)
                    &&& e.kind == ErrorKind::Truncated
                    &&& e.phase == Phase::SpriteChunk
                },
            },
    {
        let p = *file_offset;
        if p > bin.len() || bin.len() - p < 8 {
            return Err(ParseError::new(Phase::SpriteChunk, ErrorKind::Truncated, p, 0));
        }
        let cx = {
            let v = (bin[p] as u16) * 0x100 + (bin[p + 1] as u16);
            v as i16
        };
        let cy = {
            let v = (bin[p + 2] as u16) * 0x100 + (bin[p + 3] as u16);
            v as i16
        };
        let cw = (bin[p + 4] as u16) * 0x100 + (bin[p + 5] as u16);
        let ch = (bin[p + 6] as u16) * 0x100 + (bin[p + 7] as u16);
        let a = p + 8;
        let rem: usize = a % 8;
        let pad: usize = if rem == 0 {
            0
        } else {
            8 - rem
        };
        proof {
            assert(a + pad == align8(a as int));
        }
        if bin.len() - a < pad {
            proof {
                assert(chunk_data_size(*format, cw as int, ch as int) >= 0) by (nonlinear_arith);
            }
            return Err(ParseError::new(Phase::SpriteChunk, ErrorKind::Truncated, a, 0));
        }
        let aligned = a + pad;
        let bpp: u64 = match format {
            ImgFmt::I4 | ImgFmt::IA4 | ImgFmt::CI4 => 4,
            ImgFmt::I8 | ImgFmt::IA8 | ImgFmt::CI8 => 8,
            ImgFmt::RGBA16 => 16,
            ImgFmt::RGBA32 => 32,
            ImgFmt::Unknown(_) => 0,
        };
        proof {
            assert((cw as u64) * (ch as u64) <= 0x10000u64 * 0x10000u64) by (nonlinear_arith)
                requires
                    cw <= 0xFFFFu16,
                    ch <= 0xFFFFu16,
            ;
            assert((cw as u64) * (ch as u64) * bpp <= 0x10000u64 * 0x10000u64 * 32u64)
                by (nonlinear_arith)
                requires
                    cw <= 0xFFFFu16,
                    ch <= 0xFFFFu16,
                    bpp <= 32u64,
            ;
        }
        let ds64: u64 = (cw as u64) * (ch as u64) * bpp / 8;
        proof {
            assert(ds64 == chunk_data_size(*format, cw as int, ch as int));
        }
        if (ds64 > bin.len() as u64) || (((bin.len() - aligned) as u64) < ds64) {
            return Err(ParseError::new(Phase::SpriteChunk, ErrorKind::Truncated, aligned, 0));
        }
        let ds = ds64 as usize;
        let data = vstd::slice::slice_to_vec(vstd::slice::slice_subrange(bin, aligned, aligned
            + ds));
        *file_offset = aligned + ds;
        Ok(SpriteChunk { x: cx, y: cy, w: cw, h: ch, pixel_data: data })
    }
}

/// One frame: its pixel dimensions, its 20-byte header and 8-byte chunk
/// headers kept verbatim, the palette of the indexed formats, and the
/// composited RGBA8 canvas.
#[derive(Clone, Debug)]
pub struct SpriteFrame {
    pub w: usize,
    pub h: usize,
    pub header: Vec<u8>,
    pub chk_hdrs: Vec<Vec<u8>>,
    pub palette: Option<Vec<u8>>,
    pub pixel_data: Vec<u8>,
}

/// Whether a format's source alpha is a single bit, which the canvas
/// then carries as exactly `0x00` or `0xFF`.
pub open spec fn one_bit_alpha(fmt: ImgFmt) -> bool {
    fmt == ImgFmt::RGBA16 || fmt == ImgFmt::CI4 || fmt == ImgFmt::CI8 || fmt == ImgFmt::IA4
}

/// Every alpha byte of `s` (each fourth byte) is fully transparent or
/// fully opaque.
pub open spec fn alpha_crisp(s: Seq<u8>) -> bool {
    forall|k: int| 0 <= k < s.len() && k % 4 == 3 ==> s[k] == 0 || (#[trigger] s[k]) == 255
}

/// The shape a decoded frame always has: a canvas of `4 * w * h` RGBA8
/// bytes, and crisp alpha for the one-bit-alpha formats.
pub open spec fn frame_wf(f: SpriteFrame, fmt: ImgFmt) -> bool {
    &&& f.pixel_data@.len() == 4 * f.w * f.h
    &&& one_bit_alpha(fmt) ==> alpha_crisp(f.pixel_data@)
}

/// How many whole converted rows a chunk can paint: its declared
/// height, capped by the rows its converted data actually holds.
pub open spec fn composite_rows(conv: Seq<u8>, cw: int, chh: int) -> int {
    let rows = if cw == 0 {
        0int
    } else {
        conv.len() as int / (4 * cw)
    };
    if chh < rows {
        chh
    } else {
        rows
    }
}

/// The converted byte a covered destination byte takes.
pub open spec fn conv_at(conv: Seq<u8>, k: int, w: int, cw: int, ox: int, oy: int) -> u8 {
    conv[4 * (((k / 4) / w - oy) * cw + ((k / 4) % w - ox)) + k % 4]
}

/// Whether destination byte `k` lies inside the painted rectangle.
pub open spec fn covered(k: int, w: int, cw: int, rows: int, ox: int, oy: int) -> bool {
    &&& w > 0
    &&& 0 <= (k / 4) % w - ox < cw
    &&& 0 <= (k / 4) / w - oy < rows
}

/// One chunk composited onto a canvas of width `w`: every byte of a
/// pixel the chunk's rectangle covers takes the converted data, every
/// other byte keeps the canvas.
#[verifier::opaque]
pub open spec fn composite_s(
    canvas: Seq<u8>,
    conv: Seq<u8>,
    w: int,
    cw: int,
    chh: int,
    ox: int,
    oy: int,
) -> Seq<u8> {
    Seq::new(
        canvas.len(),
        |k: int|
            if covered(k, w, cw, composite_rows(conv, cw, chh), ox, oy) {
                conv_at(conv, k, w, cw, ox, oy)
            } else {
                canvas[k]
            },
    )
}

/// Which destination bytes the compositing loops have painted after
/// finishing `rows_done` whole source rows and `cols_done` pixels of
/// the next one.
spec fn painted(k: int, w: int, cw: int, ox: int, oy: int, rows_done: int, cols_done: int) -> bool {
    &&& w > 0
    &&& 0 <= (k / 4) % w - ox < cw
    &&& 0 <= (k / 4) / w - oy
    &&& ((k / 4) / w - oy < rows_done || ((k / 4) / w - oy == rows_done && (k / 4) % w - ox
        < cols_done))
}

/// A value written as `q * d + r` with `r` in range has quotient `q`
/// and remainder `r`.
proof fn lemma_coords(v: int, d: int, q: int, r: int)
    requires
        d > 0,
        0 <= r < d,
        0 <= q,
        v == q * d + r,
    ensures
        v % d == r,
        v / d == q,
{
    vstd::arithmetic::div_mod::lemma_fundamental_div_mod_converse_mod(v, d, q, r);
    vstd::arithmetic::div_mod::lemma_fundamental_div_mod_converse_div(v, d, q, r);
}

/// The alpha byte of one expanded RGB5551 pixel is crisp.
proof fn lemma_px_alpha(hi: u8, lo: u8)
    ensures
        rgba16_px(hi, lo)[3] == 0 || rgba16_px(hi, lo)[3] == 255,
{
}

/// Crisp alpha survives concatenation at whole-pixel boundaries.
proof fn lemma_alpha_concat(a: Seq<u8>, b: Seq<u8>)
    requires
        alpha_crisp(a),
        alpha_crisp(b),
        a.len() % 4 == 0,
    ensures
        alpha_crisp(a + b),
{
    assert forall|k: int|
        0 <= k < (a + b).len() && k % 4 == 3 implies (a + b)[k] == 0 || (#[trigger] (a + b)[k])
        == 255 by {
        if k < a.len() {
            assert((a + b)[k] == a[k]);
        } else {
            assert((a + b)[k] == b[k - a.len()]);
            assert((k - a.len()) % 4 == 3);
        }
    }
}

/// A single expanded RGB5551 pixel is crisp.
proof fn lemma_px_seq_alpha(hi: u8, lo: u8)
    ensures
        alpha_crisp(rgba16_px(hi, lo)),
{
    lemma_px_alpha(hi, lo);
    let p = rgba16_px(hi, lo);
    assert forall|k: int| 0 <= k < p.len() && k % 4 == 3 implies p[k] == 0 || (#[trigger] p[k])
        == 255 by {
        assert(k == 3);
    }
}

/// RGBA16 conversion output has crisp alpha.
pub proof fn lemma_rgba16_alpha(s: Seq<u8>)
    ensures
        alpha_crisp(rgba16_pixels(s)),
    decreases s.len(),
{
    if s.len() >= 2 {
        lemma_rgba16_alpha(s.skip(2));
        lemma_px_seq_alpha(s[0], s[1]);
        lemma_alpha_concat(rgba16_px(s[0], s[1]), rgba16_pixels(s.skip(2)));
    }
}

/// CI4 conversion output has crisp alpha.
pub proof fn lemma_ci4_alpha(s: Seq<u8>, pal: Seq<u8>)
    ensures
        alpha_crisp(ci4_pixels(s, pal)),
    decreases s.len(),
{
    if s.len() > 0 {
        lemma_ci4_alpha(s.skip(1), pal);
        let p1 = pal_px(pal, s[0] as int / 16);
        let p2 = pal_px(pal, s[0] as int % 16);
        lemma_px_seq_alpha(pal[2 * (s[0] as int / 16)], pal[2 * (s[0] as int / 16) + 1]);
        lemma_px_seq_alpha(pal[2 * (s[0] as int % 16)], pal[2 * (s[0] as int % 16) + 1]);
        lemma_alpha_concat(p1, p2);
        lemma_alpha_concat(p1 + p2, ci4_pixels(s.skip(1), pal));
    }
}

/// CI8 conversion output has crisp alpha.
pub proof fn lemma_ci8_alpha(s: Seq<u8>, pal: Seq<u8>)
    ensures
        alpha_crisp(ci8_pixels(s, pal)),
    decreases s.len(),
{
    if s.len() > 0 {
        lemma_ci8_alpha(s.skip(1), pal);
        lemma_px_seq_alpha(pal[2 * (s[0] as int)], pal[2 * (s[0] as int) + 1]);
        lemma_alpha_concat(pal_px(pal, s[0] as int), ci8_pixels(s.skip(1), pal));
    }
}

/// IA4 conversion output has crisp alpha.
pub proof fn lemma_ia4_alpha(s: Seq<u8>)
    ensures
        alpha_crisp(ia4_pixels(s)),
    decreases s.len(),
{
    if s.len() > 0 {
        lemma_ia4_alpha(s.skip(1));
        let v = s[0] as int;
        let i1 = crate::pixels::expand3((v / 32) as u8);
        let a1 = expand1((v / 16 % 2) as u8);
        let i2 = crate::pixels::expand3((v / 2 % 8) as u8);
        let a2 = expand1((v % 2) as u8);
        let head = seq![i1, i1, i1, a1, i2, i2, i2, a2];
        assert forall|k: int|
            0 <= k < head.len() && k % 4 == 3 implies head[k] == 0 || (#[trigger] head[k]) == 255
            by {
            assert(k == 3 || k == 7);
        }
        lemma_alpha_concat(head, ia4_pixels(s.skip(1)));
    }
}


/// Copy a chunk's converted RGBA8 rectangle onto the canvas at the
/// given origin; pixels whose destination lies outside the canvas are
/// dropped, and so are rows past the converted data.
#[verifier::loop_isolation(false)]
#[verifier::rlimit(100)]
fn composite_chunk(
    canvas: &mut Vec<u8>,
    conv: &Vec<u8>,
    w: usize,
    h: usize,
    cw: usize,
    chh: usize,
    ox: i64,
    oy: i64,
)
    requires
        old(canvas)@.len() == 4 * w * h,
        w <= 0xFFFF,
        h <= 0xFFFF,
        cw <= 0xFFFF,
        chh <= 0xFFFF,
        -0x10000i64 <= ox <= 0x10000i64,
        -0x10000i64 <= oy <= 0x10000i64,
    ensures
        final(canvas)@ == composite_s(
            old(canvas)@,
            conv@,
            w as int,
            cw as int,
            chh as int,
            ox as int,
            oy as int,
        ),
        final(canvas)@.len() == old(canvas)@.len(),
        alpha_crisp(conv@) && alpha_crisp(old(canvas)@) ==> alpha_crisp(final(canvas)@),
{
    let ghost wi = w as int;
    let ghost cwi = cw as int;
    let ghost oxi = ox as int;
    let ghost oyi = oy as int;
    let ghost old0 = old(canvas)@;
    let rows: usize = if cw == 0 {
        0
    } else {
        conv.len() / (4 * cw)
    };
    let maxrows: usize = if chh < rows {
        chh
    } else {
        rows
    };
    proof {
        assert(maxrows as int == composite_rows(conv@, cwi, chh as int));
        if cw > 0 {
            assert(4 * cw * maxrows <= conv@.len()) by (nonlinear_arith)
                requires
                    cw > 0,
                    maxrows <= (conv@.len() as int) / (4 * (cw as int)),
            ;
        }
    }
    let ghost crisp = alpha_crisp(conv@) && alpha_crisp(old(canvas)@);
    let mut j: usize = 0;
    while j < maxrows
        invariant
            j <= maxrows,
            canvas@.len() == 4 * w * h,
            crisp ==> alpha_crisp(canvas@),
            forall|k: int|
                0 <= k < canvas@.len() ==> #[trigger] canvas@[k] == (if painted(
                    k,
                    wi,
                    cwi,
                    oxi,
                    oyi,
                    j as int,
                    0,
                ) {
                    conv_at(conv@, k, wi, cwi, oxi, oyi)
                } else {
                    old0[k]
                }),
        decreases maxrows - j,
    {
        let mut t: usize = 0;
        while t < cw
            invariant
                t <= cw,
                j < maxrows,
                canvas@.len() == 4 * w * h,
                crisp ==> alpha_crisp(canvas@),
                forall|k: int|
                    0 <= k < canvas@.len() ==> #[trigger] canvas@[k] == (if painted(
                        k,
                        wi,
                        cwi,
                        oxi,
                        oyi,
                        j as int,
                        t as int,
                    ) {
                        conv_at(conv@, k, wi, cwi, oxi, oyi)
                    } else {
                        old0[k]
                    }),
            decreases cw - t,
        {
            let fx: i64 = ox + (t as i64);
            let fy: i64 = oy + (j as i64);
            if 0 <= fx && fx < w as i64 && 0 <= fy && fy < h as i64 {
                let fxu = fx as usize;
                let fyu = fy as usize;
                let cl: usize = canvas.len();
                proof {
                    assert(canvas@.len() <= usize::MAX);
                    assert(fyu * w + fxu < w * h) by (nonlinear_arith)
                        requires
                            fxu < w,
                            fyu < h,
                    ;
                    assert(4 * (fyu * w + fxu) + 4 <= 4 * (w * h)) by (nonlinear_arith)
                        requires
                            fyu * w + fxu < w * h,
                    ;
                    assert(4 * ((w as int) * (h as int)) == canvas@.len()) by (nonlinear_arith)
                        requires
                            canvas@.len() == 4 * (w as int) * (h as int),
                    ;
                    assert((w as int) * (h as int) <= canvas@.len());
                    assert(4 * ((j as int) * (cw as int) + t as int) + 4 <= 4 * (cw as int) * (
                    maxrows as int)) by (nonlinear_arith)
                        requires
                            j < maxrows,
                            t < cw,
                    ;
                    assert(4 * (cw as int) * (maxrows as int) <= conv@.len());
                }
                let di: usize = 4 * (fyu * w + fxu);
                let si: usize = 4 * (j * cw + t);
                let ghost before = canvas@;
                let ghost m = (fyu * w + fxu) as int;
                canvas[di] = conv[si];
                canvas[di + 1] = conv[si + 1];
                canvas[di + 2] = conv[si + 2];
                canvas[di + 3] = conv[si + 3];
                proof {
                    assert(si as int == 4 * ((j as int) * (cw as int) + t as int));
                    assert forall|k: int|
                        0 <= k < canvas@.len() implies #[trigger] canvas@[k] == (if painted(
                        k,
                        wi,
                        cwi,
                        oxi,
                        oyi,
                        j as int,
                        t as int + 1,
                    ) {
                        conv_at(conv@, k, wi, cwi, oxi, oyi)
                    } else {
                        old0[k]
                    }) by {
                        if di <= k < di + 4 {
                            let c = k - di;
                            lemma_coords(k, 4, m, c);
                            lemma_coords(m, wi, fyu as int, fxu as int);
                            assert(canvas@[k] == conv@[si + c]);
                            assert(k / 4 == m && k % 4 == c);
                            assert(m % wi == fxu && m / wi == fyu);
                            assert(painted(k, wi, cwi, oxi, oyi, j as int, t as int + 1));
                            assert(conv_at(conv@, k, wi, cwi, oxi, oyi) == conv@[4 * ((j as int)
                                * cwi + t as int) + c]);
                        } else {
                            assert(canvas@[k] == before[k]);
                            if painted(k, wi, cwi, oxi, oyi, j as int, t as int + 1) != painted(
                                k,
                                wi,
                                cwi,
                                oxi,
                                oyi,
                                j as int,
                                t as int,
                            ) {
                                let k4 = k / 4;
                                assert(k4 % wi - oxi == t as int && k4 / wi - oyi == j as int);
                                vstd::arithmetic::div_mod::lemma_fundamental_div_mod(k4, wi);
                                assert(k4 == wi * (k4 / wi) + k4 % wi);
                                assert(k4 / wi == fyu as int && k4 % wi == fxu as int);
                                assert(k4 == m) by (nonlinear_arith)
                                    requires
                                        k4 == wi * (k4 / wi) + k4 % wi,
                                        k4 / wi == fyu as int,
                                        k4 % wi == fxu as int,
                                        m == (fyu as int) * wi + fxu as int,
                                ;
                                vstd::arithmetic::div_mod::lemma_fundamental_div_mod(k, 4);
                                assert(k == 4 * (k / 4) + k % 4);
                                assert(di <= k < di + 4);
                                assert(false);
                            }
                        }
                    }
                }
            } else {
                proof {
                    assert(4 * ((wi) * (h as int)) == canvas@.len()) by (nonlinear_arith)
                        requires
                            canvas@.len() == 4 * wi * (h as int),
                    ;
                    assert forall|k: int|
                        0 <= k < canvas@.len() implies (painted(
                        k,
                        wi,
                        cwi,
                        oxi,
                        oyi,
                        j as int,
                        t as int + 1,
                    ) == painted(k, wi, cwi, oxi, oyi, j as int, t as int)) by {
                        if painted(k, wi, cwi, oxi, oyi, j as int, t as int + 1) != painted(
                            k,
                            wi,
                            cwi,
                            oxi,
                            oyi,
                            j as int,
                            t as int,
                        ) {
                            let k4 = k / 4;
                            assert(k4 % wi - oxi == t as int && k4 / wi - oyi == j as int);
                            vstd::arithmetic::div_mod::lemma_fundamental_div_mod(k, 4);
                            assert(4 * k4 <= k);
                            assert(k4 < wi * (h as int)) by (nonlinear_arith)
                                requires
                                    4 * k4 <= k,
                                    k < 4 * (wi * (h as int)),
                            ;
                            assert(0 <= k4 / wi < h as int) by (nonlinear_arith)
                                requires
                                    wi > 0,
                                    0 <= k4 < wi * (h as int),
                            ;
                            assert(0 <= k4 % wi < wi) by (nonlinear_arith)
                                requires
                                    wi > 0,
                                    0 <= k4,
                            ;
                            assert(0 <= oxi + t < wi && 0 <= oyi + j < h as int);
                            assert(false);
                        }
                    }
                }
            }
            t = t + 1;
        }
        proof {
            assert forall|k: int|
                0 <= k < canvas@.len() implies (painted(
                k,
                wi,
                cwi,
                oxi,
                oyi,
                j as int,
                cwi,
            ) == painted(k, wi, cwi, oxi, oyi, j as int + 1, 0)) by {}
        }
        j = j + 1;
    }
    proof {
        reveal(composite_s);
        assert(final(canvas)@ =~= composite_s(old0, conv@, wi, cwi, chh as int, oxi, oyi));
    }
}

/// Mathematical view of a decoded frame.
#[verifier::ext_equal]
pub struct SpriteFrameV {
    pub w: int,
    pub h: int,
    pub header: Seq<u8>,
    pub chk_hdrs: Seq<Seq<u8>>,
    pub palette: Option<Seq<u8>>,
    pub pixel_data: Seq<u8>,
}

impl View for SpriteFrame {
    type V = SpriteFrameV;

    open spec fn view(&self) -> SpriteFrameV {
        SpriteFrameV {
            w: self.w as int,
            h: self.h as int,
            header: self.header@,
            chk_hdrs: Seq::new(self.chk_hdrs@.len(), |i: int| self.chk_hdrs@[i]@),
            palette: match self.palette {
                Some(p) => Some(p@),
                None => None,
            },
            pixel_data: self.pixel_data@,
        }
    }
}

/// The views of a vector of byte rows.
pub open spec fn rows_view(s: Seq<Vec<u8>>) -> Seq<Seq<u8>> {
    Seq::new(s.len(), |i: int| s[i]@)
}

/// The position after the chunk starting at `p`.
pub open spec fn chunk_end(b: Seq<u8>, p: int, fmt: ImgFmt) -> int {
    align8(p + 8) + chunk_data_size(
        fmt,
        u16v(b[p + 4], b[p + 5]) as int,
        u16v(b[p + 6], b[p + 7]) as int,
    )
}

/// An all-transparent canvas.
#[verifier::opaque]
pub open spec fn zero_canvas(n: int) -> Seq<u8> {
    Seq::new(n as nat, |k: int| 0u8)
}

/// Decode `n` chunks in a row, keeping each 8-byte chunk header
/// verbatim and compositing each converted rectangle onto the canvas
/// at its declared origin — or at the origin itself when the frame
/// holds a solitary chunk.
pub open spec fn dec_chunks(
    b: Seq<u8>,
    q: int,
    fmt: ImgFmt,
    pal: Option<Seq<u8>>,
    w: int,
    single: bool,
    n: nat,
    hdrs: Seq<Seq<u8>>,
    canvas: Seq<u8>,
) -> Option<(Seq<Seq<u8>>, Seq<u8>, int)>
    decreases n,
{
    if n == 0 {
        Some((hdrs, canvas, q))
    } else if !chunk_fits(b, q, fmt) {
        None
    } else {
        let cw = u16v(b[q + 4], b[q + 5]) as int;
        let chh = u16v(b[q + 6], b[q + 7]) as int;
        let data = b.subrange(align8(q + 8), chunk_end(b, q, fmt));
        let conv = crate::pixels::texture_pixels(fmt, pal, data);
        let ox: int = if single {
            0
        } else {
            i16v(b[q], b[q + 1]) as int
        };
        let oy: int = if single {
            0
        } else {
            i16v(b[q + 2], b[q + 3]) as int
        };
        dec_chunks(
            b,
            chunk_end(b, q, fmt),
            fmt,
            pal,
            w,
            single,
            (n - 1) as nat,
            hdrs.push(b.subrange(q, q + 8)),
            composite_s(canvas, conv, w, cw, chh, ox, oy),
        )
    }
}

/// The palette width a format demands inside a frame (zero for the
/// non-indexed formats).
pub open spec fn frame_psize(fmt: ImgFmt) -> int {
    if fmt == ImgFmt::CI4 {
        0x20
    } else if fmt == ImgFmt::CI8 {
        0x200
    } else {
        0
    }
}

/// The palette of a frame at `p`: the bytes after aligning the cursor
/// up to a multiple of eight, for the indexed formats only.
pub open spec fn frame_pal(b: Seq<u8>, p: int, fmt: ImgFmt) -> Option<Seq<u8>> {
    if frame_psize(fmt) > 0 {
        Some(b.subrange(align8(p + 20), align8(p + 20) + frame_psize(fmt)))
    } else {
        None
    }
}

/// Where a frame's chunks start.
pub open spec fn frame_q0(p: int, fmt: ImgFmt) -> int {
    if frame_psize(fmt) > 0 {
        align8(p + 20) + frame_psize(fmt)
    } else {
        p + 20
    }
}

/// Whether the fixed head of a frame at `p` fits: the 20-byte header,
/// a canvas the machine can hold, and the palette of the indexed
/// formats.
pub open spec fn frame_head_fits(b: Seq<u8>, p: int, fmt: ImgFmt) -> bool {
    &&& 0 <= p
    &&& p + 20 <= b.len()
    &&& 4 * (u16v(b[p + 4], b[p + 5]) as int) * (u16v(b[p + 6], b[p + 7]) as int) <= usize::MAX
    &&& (frame_psize(fmt) > 0 ==> align8(p + 20) + frame_psize(fmt) <= b.len())
}

/// Decode one frame at `p`: the 20-byte header, the palette of the
/// indexed formats after aligning up to a multiple of eight, then the
/// chunks composited onto the transparent canvas.
#[verifier::opaque]
pub open spec fn dec_frame(b: Seq<u8>, p: int, fmt: ImgFmt) -> Option<SpriteFrameV> {
    if !frame_head_fits(b, p, fmt) {
        None
    } else {
        let w = u16v(b[p + 4], b[p + 5]) as int;
        let h = u16v(b[p + 6], b[p + 7]) as int;
        let cnt = u16v(b[p + 8], b[p + 9]) as int;
        match dec_chunks(
            b,
            frame_q0(p, fmt),
            fmt,
            frame_pal(b, p, fmt),
            w,
            cnt == 1,
            cnt as nat,
            Seq::empty(),
            zero_canvas(4 * w * h),
        ) {
            Some((hdrs, canvas, _end)) => Some(
                SpriteFrameV {
                    w,
                    h,
                    header: b.subrange(p, p + 20),
                    chk_hdrs: hdrs,
                    palette: frame_pal(b, p, fmt),
                    pixel_data: canvas,
                },
            ),
            None => None,
        }
    }
}

/// A frame whose head does not fit does not decode.
proof fn lemma_dec_frame_none(b: Seq<u8>, p: int, fmt: ImgFmt)
    requires
        !frame_head_fits(b, p, fmt),
    ensures
        dec_frame(b, p, fmt) is None,
{
    reveal(dec_frame);
}

/// A frame whose head fits decodes exactly as its chunk run does.
proof fn lemma_dec_frame_run(b: Seq<u8>, p: int, fmt: ImgFmt)
    requires
        frame_head_fits(b, p, fmt),
    ensures
        dec_frame(b, p, fmt) == ({
            let w = u16v(b[p + 4], b[p + 5]) as int;
            let h = u16v(b[p + 6], b[p + 7]) as int;
            let cnt = u16v(b[p + 8], b[p + 9]) as int;
            match dec_chunks(
                b,
                frame_q0(p, fmt),
                fmt,
                frame_pal(b, p, fmt),
                w,
                cnt == 1,
                cnt as nat,
                Seq::empty(),
                zero_canvas(4 * w * h),
            ) {
                Some((hdrs, canvas, _end)) => Some(
                    SpriteFrameV {
                        w,
                        h,
                        header: b.subrange(p, p + 20),
                        chk_hdrs: hdrs,
                        palette: frame_pal(b, p, fmt),
                        pixel_data: canvas,
                    },
                ),
                None => None,
            }
        }),
{
    reveal(dec_frame);
}

/// Parse one chunk at `*offset`, convert its pixels with the frame's
/// format and palette, and composite them onto the canvas; on success
/// the returned bytes are the chunk's 8-byte header, kept verbatim.
#[verifier::rlimit(100)]
fn decode_one_chunk(
    bin: &[u8],
    offset: &mut usize,
    format: &ImgFmt,
    palette: &Option<Vec<u8>>,
    w: usize,
    h: usize,
    single: bool,
    canvas: &mut Vec<u8>,
) -> (res: Result<Vec<u8>, ParseError>)
    requires
        *format == ImgFmt::CI4 || *format == ImgFmt::CI8 || *format == ImgFmt::I4 || *format
            == ImgFmt::I8 || *format == ImgFmt::RGBA16 || *format == ImgFmt::RGBA32,
        (*format == ImgFmt::CI4 ==> (*palette matches Some(p) && p@.len() == 0x20)),
        (*format == ImgFmt::CI8 ==> (*palette matches Some(p) && p@.len() == 0x200)),
        (*format != ImgFmt::CI4 && *format != ImgFmt::CI8 ==> *palette is None),
        old(canvas)@.len() == 4 * w * h,
        w <= 0xFFFF,
        h <= 0xFFFF,
        *old(offset) <= bin@.len(),
    ensures
        match res {
            Ok(hdr) => {
                let q = (*old(offset)) as int;
                let palv = match *palette {
                    Some(p) => Some(p@),
                    None => None::<Seq<u8>>,
                };
                let cw = u16v(bin@[q + 4], bin@[q + 5]) as int;
                let chh = u16v(bin@[q + 6], bin@[q + 7]) as int;
                let conv = crate::pixels::texture_pixels(
                    *format,
                    palv,
                    bin@.subrange(align8(q + 8), chunk_end(bin@, q, *format)),
                );
                let ox: int = if single {
                    0
                } else {
                    i16v(bin@[q], bin@[q + 1]) as int
                };
                let oy: int = if single {
                    0
                } else {
                    i16v(bin@[q + 2], bin@[q + 3]) as int
                };
                &&& chunk_fits(bin@, q, *format)
                &&& hdr@ == bin@.subrange(q, q + 8)
                &&& *final(offset) == chunk_end(bin@, q, *format)
                &&& *final(offset) <= bin@.len()
                &&& final(canvas)@ == composite_s(old(canvas)@, conv, w as int, cw, chh, ox, oy)
                &&& final(canvas)@.len() == old(canvas)@.len()
                &&& (one_bit_alpha(*format) && alpha_crisp(old(canvas)@) ==> alpha_crisp(
                    final(canvas)@,
                ))
            },
            Err(_) => {
                &&& !chunk_fits(bin@, (*old(offset)) as int, *format)
                &&& *final(canvas) == *old(canvas)
                &&& *final(offset) == *old(offset)
            },
        },
{
    let ghost q = (*offset) as int;
    let ghost fmt = *format;
    if bin.len() - *offset < 8 {
        return Err(ParseError::new(Phase::SpriteChunk, ErrorKind::Truncated, *offset, 0));
    }
    let hdr = vstd::slice::slice_to_vec(
        vstd::slice::slice_subrange(bin, *offset, *offset + 8),
    );
    let chunk = match SpriteChunk::new(bin, offset, format) {
        Ok(c) => c,
        Err(e) => {
            return Err(e);
        },
    };
    let conv: Vec<u8> = match format {
        ImgFmt::CI4 => {
            match palette {
                Some(pal) => {
                    let c = Texture::ci4_to_rgba32(chunk.pixel_data.as_slice(), pal.as_slice());
                    proof {
                        lemma_ci4_alpha(chunk.pixel_data@, pal@);
                    }
                    c
                },
                None => {
                    proof {
                        assert(false);
                    }
                    Vec::new()
                },
            }
        },
        ImgFmt::CI8 => {
            match palette {
                Some(pal) => {
                    let c = Texture::ci8_to_rgba32(chunk.pixel_data.as_slice(), pal.as_slice());
                    proof {
                        lemma_ci8_alpha(chunk.pixel_data@, pal@);
                    }
                    c
                },
                None => {
                    proof {
                        assert(false);
                    }
                    Vec::new()
                },
            }
        },
        ImgFmt::RGBA16 => {
            let c = Texture::rgba16_to_rgba32(chunk.pixel_data.as_slice());
            proof {
                lemma_rgba16_alpha(chunk.pixel_data@);
            }
            c
        },
        ImgFmt::RGBA32 => {
            let c = chunk.pixel_data;
            c
        },
        ImgFmt::I4 => Texture::i4_to_rgba32(chunk.pixel_data.as_slice()),
        _ => {
            proof {
                assert(*format == ImgFmt::I8);
            }
            Texture::i8_to_rgba32(chunk.pixel_data.as_slice())
        },
    };
    proof {
        assert(one_bit_alpha(*format) ==> alpha_crisp(conv@));
        assert(conv@ == crate::pixels::texture_pixels(
            fmt,
            match *palette {
                Some(p) => Some(p@),
                None => None::<Seq<u8>>,
            },
            bin@.subrange(align8(q + 8), chunk_end(bin@, q, fmt)),
        ));
    }
    let ox: i64 = if single {
        0
    } else {
        chunk.x as i64
    };
    let oy: i64 = if single {
        0
    } else {
        chunk.y as i64
    };
    composite_chunk(canvas, &conv, w, h, chunk.w as usize, chunk.h as usize, ox, oy);
    Ok(hdr)
}

/// Parse and composite `cnt` chunks in a row from `offset0`.  On
/// success the kept chunk headers, and the position after the last
/// chunk, exactly as the mathematical chunk run decodes them.
#[verifier::loop_isolation(false)]
#[verifier::rlimit(100)]
fn decode_chunk_run(
    bin: &[u8],
    offset0: usize,
    format: &ImgFmt,
    palette: &Option<Vec<u8>>,
    w: usize,
    h: usize,
    single: bool,
    cnt: u16,
    canvas: &mut Vec<u8>,
) -> (res: Result<(Vec<Vec<u8>>, usize), ParseError>)
    requires
        *format == ImgFmt::CI4 || *format == ImgFmt::CI8 || *format == ImgFmt::I4 || *format
            == ImgFmt::I8 || *format == ImgFmt::RGBA16 || *format == ImgFmt::RGBA32,
        (*format == ImgFmt::CI4 ==> (*palette matches Some(p) && p@.len() == 0x20)),
        (*format == ImgFmt::CI8 ==> (*palette matches Some(p) && p@.len() == 0x200)),
        (*format != ImgFmt::CI4 && *format != ImgFmt::CI8 ==> *palette is None),
        old(canvas)@.len() == 4 * w * h,
        w <= 0xFFFF,
        h <= 0xFFFF,
        offset0 <= bin@.len(),
        one_bit_alpha(*format) ==> alpha_crisp(old(canvas)@),
    ensures
        ({
            let palv = match *palette {
                Some(p) => Some(p@),
                None => None::<Seq<u8>>,
            };
            match res {
                Ok(r) => {
                    &&& dec_chunks(
                        bin@,
                        offset0 as int,
                        *format,
                        palv,
                        w as int,
                        single,
                        cnt as nat,
                        Seq::empty(),
                        old(canvas)@,
                    ) == Some((rows_view(r.0@), final(canvas)@, r.1 as int))
                    &&& r.0@.len() == cnt
                    &&& final(canvas)@.len() == old(canvas)@.len()
                    &&& (one_bit_alpha(*format) ==> alpha_crisp(final(canvas)@))
                },
                Err(_) => dec_chunks(
                    bin@,
                    offset0 as int,
                    *format,
                    palv,
                    w as int,
                    single,
                    cnt as nat,
                    Seq::empty(),
                    old(canvas)@,
                ) is None,
            }
        }),
{
    let ghost fmt = *format;
    let ghost wi = w as int;
    let ghost palv: Option<Seq<u8>> = match palette {
        Some(p) => Some(p@),
        None => None,
    };
    let ghost canvas_in = canvas@;
    let mut offset: usize = offset0;
    let mut chk_hdrs: Vec<Vec<u8>> = Vec::new();
    let mut i: u16 = 0;
    proof {
        assert(rows_view(Seq::<Vec<u8>>::empty()) =~= Seq::<Seq<u8>>::empty());
    }
    while i < cnt
        invariant
            i <= cnt,
            chk_hdrs@.len() == i,
            offset <= bin@.len(),
            canvas@.len() == 4 * w * h,
            one_bit_alpha(*format) ==> alpha_crisp(canvas@),
            dec_chunks(bin@, offset0 as int, fmt, palv, wi, single, cnt as nat, Seq::empty(),
                canvas_in) == dec_chunks(
                bin@,
                offset as int,
                fmt,
                palv,
                wi,
                single,
                (cnt - i) as nat,
                rows_view(chk_hdrs@),
                canvas@,
            ),
        decreases cnt - i,
    {
        let ghost q = offset as int;
        let ghost rows0 = rows_view(chk_hdrs@);
        let ghost canvas0 = canvas@;
        let hdr = match decode_one_chunk(
            bin,
            &mut offset,
            format,
            palette,
            w,
            h,
            single,
            canvas,
        ) {
            Ok(hd) => hd,
            Err(e) => {
                proof {
                    assert(dec_chunks(
                        bin@,
                        q,
                        fmt,
                        palv,
                        wi,
                        single,
                        (cnt - i) as nat,
                        rows0,
                        canvas0,
                    ) is None);
                }
                return Err(e);
            },
        };
        chk_hdrs.push(hdr);
        i = i + 1;
        proof {
            assert(rows_view(chk_hdrs@) =~= rows0.push(bin@.subrange(q, q + 8)));
            assert(dec_chunks(bin@, q, fmt, palv, wi, single, (cnt - (i - 1)) as nat, rows0,
                canvas0) == dec_chunks(
                bin@,
                offset as int,
                fmt,
                palv,
                wi,
                single,
                (cnt - i) as nat,
                rows_view(chk_hdrs@),
                canvas@,
            ));
        }
    }
    proof {
        assert(dec_chunks(
            bin@,
            offset as int,
            fmt,
            palv,
            wi,
            single,
            0,
            rows_view(chk_hdrs@),
            canvas@,
        ) == Some((rows_view(chk_hdrs@), canvas@, offset as int)));
    }
    Ok((chk_hdrs, offset))
}

impl SpriteFrame {
    /// Parse one frame at `file_offset`: the 20-byte frame header, the
    /// palette of the indexed formats (cursor aligned up to the next
    /// multiple of eight first), then the chunks, each composited onto
    /// the transparent canvas.  A solitary chunk paints at the origin;
    /// otherwise chunks paint at their declared origins and pixels
    /// falling outside the canvas are dropped.
    #[verifier::loop_isolation(false)]
    #[verifier::rlimit(100)]
    pub fn new(bin: &[u8], file_offset: usize, format: &ImgFmt) -> (res: Result<
        SpriteFrame,
        ParseError,
    >)
        requires
            *format == ImgFmt::CI4 || *format == ImgFmt::CI8 || *format == ImgFmt::I4 || *format
                == ImgFmt::I8 || *format == ImgFmt::RGBA16 || *format == ImgFmt::RGBA32,
        ensures
            res is Ok <==> dec_frame(bin@, file_offset as int, *format) is Some,
            match res {
                Ok(f) => {
                    &&& Some(f@) == dec_frame(bin@, file_offset as int, *format)
                    &&& file_offset + 20 <= bin@.len()
                    &&& f.header@ == bin@.subrange(file_offset as int, file_offset + 20)
                    &&& f.w == u16v(bin@[file_offset + 4], bin@[file_offset + 5])
                    &&& f.h == u16v(bin@[file_offset + 6], bin@[file_offset + 7])
                    &&& f.chk_hdrs@.len() == u16v(bin@[file_offset + 8], bin@[file_offset + 9])
                    &&& frame_wf(f, *format)
                    &&& (*format == ImgFmt::CI4 ==> (f.palette matches Some(p) && p@.len() == 0x20))
                    &&& (*format == ImgFmt::CI8 ==> (f.palette matches Some(p) && p@.len()
                        == 0x200))
                    &&& (*format != ImgFmt::CI4 && *format != ImgFmt::CI8 ==> f.palette is None)
                },
                Err(_) => true,
            },
    {
        let ghost fo = file_offset as int;
        let ghost fmt = *format;
        if file_offset > bin.len() || bin.len() - file_offset < 20 {
            proof {
                lemma_dec_frame_none(bin@, fo, fmt);
            }
            return Err(
                ParseError::new(Phase::SpriteFrame, ErrorKind::Truncated, file_offset, 0),
            );
        }
        let header = vstd::slice::slice_to_vec(
            vstd::slice::slice_subrange(bin, file_offset, file_offset + 20),
        );
        let w16 = (bin[file_offset + 4] as u16) * 0x100 + (bin[file_offset + 5] as u16);
        let h16 = (bin[file_offset + 6] as u16) * 0x100 + (bin[file_offset + 7] as u16);
        let cnt16 = (bin[file_offset + 8] as u16) * 0x100 + (bin[file_offset + 9] as u16);
        let w = w16 as usize;
        let h = h16 as usize;
        let ghost wi = w as int;
        let ghost hi = h as int;
        proof {
            assert(wi == u16v(bin@[fo + 4], bin@[fo + 5]) as int);
            assert(hi == u16v(bin@[fo + 6], bin@[fo + 7]) as int);
            assert(4u64 * (w as u64) * (h as u64) <= 4u64 * 0x10000u64 * 0x10000u64)
                by (nonlinear_arith)
                requires
                    w <= 0xFFFFusize,
                    h <= 0xFFFFusize,
            ;
        }
        let total64: u64 = 4u64 * (w as u64) * (h as u64);
        if total64 > (usize::MAX as u64) {
            proof {
                lemma_dec_frame_none(bin@, fo, fmt);
            }
            return Err(
                ParseError::new(
                    Phase::SpriteFrame,
                    ErrorKind::InvariantViolation,
                    file_offset,
                    0,
                ),
            );
        }
        let total = total64 as usize;
        let mut canvas: Vec<u8> = Vec::new();
        let mut z: usize = 0;
        while z < total
            invariant
                z <= total,
                canvas@.len() == z,
                forall|k: int| 0 <= k < canvas@.len() ==> canvas@[k] == 0,
            decreases total - z,
        {
            canvas.push(0);
            z = z + 1;
        }
        proof {
            assert(canvas@.len() == 4 * w * h) by (nonlinear_arith)
                requires
                    canvas@.len() == total,
                    total == 4 * (w as int) * (h as int),
            ;
        }
        // the palette, for the indexed formats, after aligning up
        let mut offset: usize = file_offset + 20;
        let mut palette: Option<Vec<u8>> = None;
        let pal_size: usize = match format {
            ImgFmt::CI4 => 0x20,
            ImgFmt::CI8 => 0x200,
            _ => 0,
        };
        if pal_size > 0 {
            let rem: usize = offset % 8;
            let pad: usize = if rem == 0 {
                0
            } else {
                8 - rem
            };
            proof {
                assert(offset + pad == align8(fo + 20));
            }
            if bin.len() - offset < pad || bin.len() - (offset + pad) < pal_size {
                proof {
                    assert(align8(fo + 20) + pal_size > bin@.len());
                    lemma_dec_frame_none(bin@, fo, fmt);
                }
                return Err(ParseError::new(Phase::SpriteFrame, ErrorKind::Truncated, offset, 0));
            }
            offset = offset + pad;
            palette = Some(
                vstd::slice::slice_to_vec(
                    vstd::slice::slice_subrange(bin, offset, offset + pal_size),
                ),
            );
            offset = offset + pal_size;
        }
        let ghost palv: Option<Seq<u8>> = match &palette {
            Some(p) => Some(p@),
            None => None,
        };
        let single = cnt16 == 1;
        let ghost zero0 = zero_canvas(4 * wi * hi);
        proof {
            reveal(zero_canvas);
            assert(canvas@ =~= zero0);
            assert(frame_head_fits(bin@, fo, fmt));
            assert(palv == frame_pal(bin@, fo, fmt));
            assert(offset as int == frame_q0(fo, fmt));
        }
        let (chk_hdrs, end) = match decode_chunk_run(
            bin,
            offset,
            format,
            &palette,
            w,
            h,
            single,
            cnt16,
            &mut canvas,
        ) {
            Ok(x) => x,
            Err(e) => {
                proof {
                    lemma_dec_frame_run(bin@, fo, fmt);
                    assert(dec_frame(bin@, fo, fmt) is None);
                }
                return Err(e);
            },
        };
        let frame = SpriteFrame { w, h, header, chk_hdrs, palette, pixel_data: canvas };
        proof {
            assert(frame.pixel_data@.len() == 4 * frame.w * frame.h);
            assert(frame@ =~= (SpriteFrameV {
                w: wi,
                h: hi,
                header: bin@.subrange(fo, fo + 20),
                chk_hdrs: rows_view(frame.chk_hdrs@),
                palette: palv,
                pixel_data: frame.pixel_data@,
            }));
            lemma_dec_frame_run(bin@, fo, fmt);
            assert(Some(frame@) == dec_frame(bin@, fo, fmt));
        }
        Ok(frame)
    }
}

/// A sprite: its format, its decoded frames, and the raw input bytes,
/// which re-emitting reproduces verbatim.
#[derive(Clone, Debug)]
pub struct Sprite {
    pub format: ImgFmt,
    pub frame: Vec<SpriteFrame>,
    pub bytes: Vec<u8>,
}

/// Mathematical view of a decoded sprite.
#[verifier::ext_equal]
pub struct SpriteV {
    pub format: ImgFmt,
    pub frames: Seq<SpriteFrameV>,
    pub bytes: Seq<u8>,
}

impl View for Sprite {
    type V = SpriteV;

    open spec fn view(&self) -> SpriteV {
        SpriteV {
            format: self.format,
            frames: Seq::new(self.frame@.len(), |i: int| self.frame@[i]@),
            bytes: self.bytes@,
        }
    }
}

/// The format a sprite header's code selects.
pub open spec fn format_of_code(code: u16) -> ImgFmt {
    if code == 0x0001 {
        ImgFmt::CI4
    } else if code == 0x0004 {
        ImgFmt::CI8
    } else if code == 0x0020 {
        ImgFmt::I4
    } else if code == 0x0040 {
        ImgFmt::I8
    } else if code == 0x0400 {
        ImgFmt::RGBA16
    } else if code == 0x0800 {
        ImgFmt::RGBA32
    } else {
        ImgFmt::Unknown(code)
    }
}

/// The views of a vector of frames.
pub open spec fn frames_view(s: Seq<SpriteFrame>) -> Seq<SpriteFrameV> {
    Seq::new(s.len(), |i: int| s[i]@)
}

/// Decode the frames of the normal form: entry `i` of the offset table
/// names the frame's start, relative to the end of the table.
pub open spec fn dec_sprite_frames(b: Seq<u8>, te: int, fmt: ImgFmt, n: int, i: int, acc: Seq<
    SpriteFrameV,
>) -> Option<Seq<SpriteFrameV>>
    decreases n - i,
{
    if i >= n {
        Some(acc)
    } else {
        let entry = u32v(b[0x10 + 4 * i], b[0x10 + 4 * i + 1], b[0x10 + 4 * i + 2], b[0x10 + 4 * i
            + 3]) as int;
        match dec_frame(b, te + entry, fmt) {
            Some(f) => dec_sprite_frames(b, te, fmt, n, i + 1, acc.push(f)),
            None => None,
        }
    }
}

/// Decode a whole sprite file: an unknown format code keeps the raw
/// bytes with no frames; a frame count beyond 0x100 marks the special
/// single-chunk form at offset 8; otherwise each entry of the offset
/// table after the 16-byte header names one frame.
pub open spec fn dec_sprite(b: Seq<u8>) -> Option<SpriteV> {
    if b.len() < 4 {
        None
    } else {
        let cnt = u16v(b[0], b[1]) as int;
        let fmt = format_of_code(u16v(b[2], b[3]));
        if fmt matches ImgFmt::Unknown(_) {
            Some(SpriteV { format: fmt, frames: Seq::empty(), bytes: b })
        } else if cnt > 0x100 {
            if !chunk_fits(b, 8, ImgFmt::RGBA16) {
                None
            } else {
                let f = SpriteFrameV {
                    w: u16v(b[12], b[13]) as int,
                    h: u16v(b[14], b[15]) as int,
                    header: Seq::empty(),
                    chk_hdrs: seq![b.subrange(8, 16)],
                    palette: None,
                    pixel_data: rgba16_pixels(
                        b.subrange(align8(16), chunk_end(b, 8, ImgFmt::RGBA16)),
                    ),
                };
                Some(SpriteV { format: fmt, frames: seq![f], bytes: b })
            }
        } else {
            let te = 0x10 + 4 * cnt;
            if te > b.len() {
                None
            } else {
                match dec_sprite_frames(b, te, fmt, cnt, 0, Seq::empty()) {
                    Some(frames) => Some(SpriteV { format: fmt, frames, bytes: b }),
                    None => None,
                }
            }
        }
    }
}

impl Sprite {
    /// Decode a sprite file.  The input bytes are kept verbatim, so
    /// `to_bytes` of the result reproduces the file; every decoded
    /// frame's canvas holds `4 * w * h` RGBA8 bytes, with crisp alpha
    /// for the one-bit-alpha formats.
    #[verifier::loop_isolation(false)]
    #[verifier::rlimit(100)]
    pub fn from_bytes(in_bytes: &[u8]) -> (res: Result<Sprite, ParseError>)
        ensures
            res is Ok <==> dec_sprite(in_bytes@) is Some,
            match res {
                Ok(s) => {
                    &&& Some(s@) == dec_sprite(in_bytes@)
                    &&& s.bytes@ == in_bytes@
                    &&& in_bytes@.len() >= 4
                    &&& s.format == format_of_code(u16v(in_bytes@[2], in_bytes@[3]))
                    &&& (s.format matches ImgFmt::Unknown(_) ==> s.frame@.len() == 0)
                    &&& forall|i: int|
                        0 <= i < s.frame@.len() ==> frame_wf(#[trigger] s.frame@[i], s.format)
                },
                Err(_) => true,
            },
    {
        let ghost b = in_bytes@;
        if in_bytes.len() < 4 {
            return Err(ParseError::new(Phase::SpriteHeader, ErrorKind::Truncated, 0, 0));
        }
        let frame_cnt = (in_bytes[0] as u16) * 0x100 + (in_bytes[1] as u16);
        let code = (in_bytes[2] as u16) * 0x100 + (in_bytes[3] as u16);
        let bytes = vstd::slice::slice_to_vec(
            vstd::slice::slice_subrange(in_bytes, 0, in_bytes.len()),
        );
        proof {
            assert(in_bytes@.subrange(0, in_bytes@.len() as int) =~= in_bytes@);
        }
        let fmt = if code == 0x0001 {
            ImgFmt::CI4
        } else if code == 0x0004 {
            ImgFmt::CI8
        } else if code == 0x0020 {
            ImgFmt::I4
        } else if code == 0x0040 {
            ImgFmt::I8
        } else if code == 0x0400 {
            ImgFmt::RGBA16
        } else if code == 0x0800 {
            ImgFmt::RGBA32
        } else {
            ImgFmt::Unknown(code)
        };
        if let ImgFmt::Unknown(_) = fmt {
            let s2 = Sprite { format: fmt, frame: Vec::new(), bytes };
            proof {
                assert(s2@ =~= (SpriteV { format: fmt, frames: Seq::empty(), bytes: b }));
            }
            return Ok(s2);
        }
        if frame_cnt > 0x100 {
            // Special form: one RGBA16 chunk at offset 8 is the whole
            // frame, its declared origin unused.
            let mut offset: usize = 8;
            let chunk = match SpriteChunk::new(in_bytes, &mut offset, &ImgFmt::RGBA16) {
                Ok(c) => c,
                Err(e) => {
                    proof {
                        assert(dec_sprite(b) is None);
                    }
                    return Err(e);
                },
            };
            let hdr = vstd::slice::slice_to_vec(vstd::slice::slice_subrange(in_bytes, 8, 16));
            let pixels = Texture::rgba16_to_rgba32(chunk.pixel_data.as_slice());
            proof {
                lemma_rgba16_alpha(chunk.pixel_data@);
                lemma_rgba16_pixels_len(chunk.pixel_data@);
                assert(chunk.pixel_data@.len() == (chunk.w as int) * (chunk.h as int) * 16 / 8);
                assert((chunk.w as int) * (chunk.h as int) * 16 / 8 == 2 * ((chunk.w as int) * (
                chunk.h as int))) by (nonlinear_arith);
                assert(pixels@.len() == 4 * (chunk.w as int) * (chunk.h as int))
                    by (nonlinear_arith)
                    requires
                        pixels@.len() == 4 * (chunk.pixel_data@.len() as int / 2),
                        chunk.pixel_data@.len() == 2 * ((chunk.w as int) * (chunk.h as int)),
                ;
            }
            let frame = SpriteFrame {
                w: chunk.w as usize,
                h: chunk.h as usize,
                header: Vec::new(),
                chk_hdrs: {
                    let mut hs: Vec<Vec<u8>> = Vec::new();
                    hs.push(hdr);
                    hs
                },
                palette: None,
                pixel_data: pixels,
            };
            proof {
                assert(frame.pixel_data@.len() == 4 * frame.w * frame.h) by (nonlinear_arith)
                    requires
                        frame.pixel_data@.len() == 4 * (frame.w as int) * (frame.h as int),
                ;
            }
            let mut frames: Vec<SpriteFrame> = Vec::new();
            frames.push(frame);
            let s2 = Sprite { format: fmt, frame: frames, bytes };
            proof {
                let fv = SpriteFrameV {
                    w: u16v(b[12], b[13]) as int,
                    h: u16v(b[14], b[15]) as int,
                    header: Seq::empty(),
                    chk_hdrs: seq![b.subrange(8, 16)],
                    palette: None,
                    pixel_data: rgba16_pixels(
                        b.subrange(align8(16), chunk_end(b, 8, ImgFmt::RGBA16)),
                    ),
                };
                assert(s2.frame@[0]@ =~= fv);
                assert(s2@.frames =~= seq![fv]);
                assert(s2@ =~= (SpriteV { format: fmt, frames: seq![fv], bytes: b }));
                assert(dec_sprite(b) == Some(SpriteV { format: fmt, frames: seq![fv], bytes: b }));
            }
            return Ok(s2);
        }
        // Normal form: a table of frame offsets follows the 16-byte
        // sprite header; each offset is relative to the table's end.
        let table_end: usize = 0x10 + 4 * (frame_cnt as usize);
        let ghost te = table_end as int;
        let ghost cnti = frame_cnt as int;
        if table_end > in_bytes.len() {
            return Err(
                ParseError::new(Phase::SpriteHeader, ErrorKind::Truncated, in_bytes.len(), 0),
            );
        }
        let mut frames: Vec<SpriteFrame> = Vec::new();
        let mut i: usize = 0;
        proof {
            assert(frames_view(frames@) =~= Seq::<SpriteFrameV>::empty());
        }
        while i < frame_cnt as usize
            invariant
                i <= frame_cnt as usize,
                frames@.len() == i,
                table_end == 0x10 + 4 * (frame_cnt as int),
                table_end <= in_bytes@.len(),
                forall|k: int| 0 <= k < frames@.len() ==> frame_wf(#[trigger] frames@[k], fmt),
                dec_sprite_frames(b, te, fmt, cnti, 0, Seq::empty()) == dec_sprite_frames(
                    b,
                    te,
                    fmt,
                    cnti,
                    i as int,
                    frames_view(frames@),
                ),
            decreases frame_cnt as usize - i,
        {
            let ghost fv0 = frames_view(frames@);
            let p = 0x10 + 4 * i;
            let entry: u32 = (in_bytes[p] as u32) * 0x1000000 + (in_bytes[p + 1] as u32) * 0x10000
                + (in_bytes[p + 2] as u32) * 0x100 + (in_bytes[p + 3] as u32);
            proof {
                assert(entry as int == u32v(b[0x10 + 4 * (i as int)], b[0x10 + 4 * (i as int) + 1],
                    b[0x10 + 4 * (i as int) + 2], b[0x10 + 4 * (i as int) + 3]) as int);
            }
            let start64: u64 = (table_end as u64) + (entry as u64);
            if start64 > in_bytes.len() as u64 {
                proof {
                    lemma_dec_frame_none(b, te + entry as int, fmt);
                    assert(dec_sprite_frames(b, te, fmt, cnti, i as int, fv0) is None);
                    assert(dec_sprite(b) is None);
                }
                return Err(
                    ParseError::new(Phase::SpriteFrame, ErrorKind::Truncated, table_end, 0),
                );
            }
            let start = start64 as usize;
            let f = match SpriteFrame::new(in_bytes, start, &fmt) {
                Ok(f) => f,
                Err(e) => {
                    proof {
                        assert(dec_frame(b, te + entry as int, fmt) is None);
                        assert(dec_sprite_frames(b, te, fmt, cnti, i as int, fv0) is None);
                        assert(dec_sprite(b) is None);
                    }
                    return Err(e);
                },
            };
            frames.push(f);
            i = i + 1;
            proof {
                assert(frames_view(frames@) =~= fv0.push(frames@[i as int - 1]@));
                assert(dec_sprite_frames(b, te, fmt, cnti, i as int - 1, fv0) == dec_sprite_frames(
                    b,
                    te,
                    fmt,
                    cnti,
                    i as int,
                    frames_view(frames@),
                ));
            }
        }
        let s2 = Sprite { format: fmt, frame: frames, bytes };
        proof {
            assert(dec_sprite_frames(b, te, fmt, cnti, cnti, frames_view(s2.frame@)) == Some(
                frames_view(s2.frame@),
            ));
            assert(s2@ =~= (SpriteV { format: fmt, frames: frames_view(s2.frame@), bytes: b }));
            assert(Some(s2@) == dec_sprite(b));
        }
        Ok(s2)
    }

    /// Re-emit the sprite: exactly the bytes it was decoded from.
    pub fn to_bytes(&self) -> (r: Vec<u8>)
        ensures
            r@ == self.bytes@,
    {
        vstd::slice::slice_to_vec(
            vstd::slice::slice_subrange(self.bytes.as_slice(), 0, self.bytes.len()),
        )
    }
}

/// The RGBA16 conversion yields four bytes per source pair.
#[verifier::rlimit(100)]
pub proof fn lemma_rgba16_pixels_len(s: Seq<u8>)
    ensures
        rgba16_pixels(s).len() == 4 * (s.len() as int / 2),
    decreases s.len(),
{
    if s.len() >= 2 {
        lemma_rgba16_pixels_len(s.skip(2));
        assert(s.skip(2).len() == s.len() - 2);
        assert(4 * ((s.len() - 2) / 2) + 4 == 4 * (s.len() as int / 2));
    }
}

} // verus!
