//! Round-trip laws of the textual document form.
//!
//! The central result: reading back the document written for any
//! structurally valid level setup gives exactly that value.  Composed
//! with the binary round trip this yields the full textual round trip:
//! a binary decoded, written as text, read back and re-encoded
//! reproduces the starting binary byte for byte.

use vstd::prelude::*;
use crate::bytes::{be32, lemma_be32_roundtrip};
use crate::level::{
    camera_valid, dec_level, enc_level, level_canonical, level_encodable, level_valid,
    voxel_valid, CameraNodeSectionV, CameraNodeV, LevelSetupV, LightingNode, VoxelListV, VoxelV,
};
use crate::level_proof::lemma_level_round_trip;
use crate::text::{
    bytes_items_text, bytes_text, dec_digits, eat_lit_s, emit_camera_items, emit_camera_text,
    emit_cameras_text, emit_level_text, emit_lighting_items, emit_lighting_text,
    emit_lightings_text, emit_obj_items, emit_prop_items, emit_section_items, emit_section_text,
    emit_voxel_items, emit_voxel_text, emit_voxels_prefix, emit_voxels_text, hex2, hex_byte, hexd,
    hexval, int_text, is_digit, lemma_lit_lens, obj_slot_text, p_bytes, p_bytes_items,
    p_camera_items, p_camera_t, p_cameras_t, p_hex2, p_hex_byte, p_int, p_level_t,
    p_lighting_items, p_lighting_rest, p_lighting_t, p_lightings_t, p_obj_items, p_prop_items,
    p_section_items, p_uint, p_voxel_items, p_voxel_t, p_voxels_rest, p_voxels_t, scan_digits,
    sep_items_text, txt_camera_entry, txt_camera_type, txt_cameras_hdr, txt_cameras_none,
    txt_close_map, txt_close_map_comma, txt_comma_sp, txt_comma_y, txt_comma_z, txt_doc_type,
    txt_end_pos, txt_entry_close, txt_entry_open, txt_flags_close, txt_flags_open,
    txt_item_end, txt_item_indent, txt_light_pos, txt_lightings_hdr, txt_lightings_none,
    txt_newline, txt_objects_close, txt_objects_none, txt_objects_open, txt_props_close,
    txt_props_none, txt_props_open, txt_rgb_close, txt_rgb_open, txt_section_bytes,
    txt_section_entry, txt_sections_hdr, txt_sections_none, txt_start_pos, txt_voxels_hdr,
    txt_voxels_list,
};

verus! {

/// A window of `b` that equals `e` makes every byte of `e` a byte of
/// `b`.
proof fn lemma_window_index(b: Seq<u8>, i: int, e: Seq<u8>)
    requires
        0 <= i,
        i + e.len() <= b.len(),
        b.subrange(i, i + e.len()) == e,
    ensures
        forall|k: int| 0 <= k < e.len() ==> b[i + k] == e[k],
        e.len() > 0 ==> b[i] == e[0],
{
    assert forall|k: int| 0 <= k < e.len() implies b[i + k] == e[k] by {
        assert(e[k] == b.subrange(i, i + e.len())[k]);
    }
    if e.len() > 0 {
        assert(e[0] == b.subrange(i, i + e.len())[0]);
    }
}

/// A window within a window of `b` is the corresponding window of `e`.
proof fn lemma_window_sub(b: Seq<u8>, i: int, e: Seq<u8>, a: int, c: int)
    requires
        0 <= i,
        i + e.len() <= b.len(),
        b.subrange(i, i + e.len()) == e,
        0 <= a <= c <= e.len(),
    ensures
        b.subrange(i + a, i + c) == e.subrange(a, c),
{
    lemma_window_index(b, i, e);
    assert(b.subrange(i + a, i + c) =~= e.subrange(a, c));
}

/// A fragment standing as a window of `b` is consumed there.
proof fn lemma_eat_match(b: Seq<u8>, i: int, l: Seq<u8>)
    requires
        0 <= i,
        i + l.len() <= b.len(),
        b.subrange(i, i + l.len()) == l,
    ensures
        eat_lit_s(b, i, l) == Some(i + l.len()),
{
}

/// A fragment differing from `b` at one position is not consumed.
proof fn lemma_eat_mismatch(b: Seq<u8>, i: int, l: Seq<u8>, k: int)
    requires
        0 <= i,
        0 <= k < l.len(),
        i + k < b.len(),
        b[i + k] != l[k],
    ensures
        eat_lit_s(b, i, l) is None,
{
    if 0 <= i && i + l.len() <= b.len() && b.subrange(i, i + l.len()) == l {
        assert(b.subrange(i, i + l.len())[k] == b[i + k]);
        assert(false);
    }
}

// ---------------------------------------------------------------------
// Decimal integers
// ---------------------------------------------------------------------

/// Ten to the `k`.
pub open spec fn pow10(k: nat) -> nat
    decreases k,
{
    if k == 0 {
        1
    } else {
        10 * pow10((k - 1) as nat)
    }
}

/// The value of a run of decimal digit characters.
pub open spec fn seq_val(s: Seq<u8>) -> nat
    decreases s.len(),
{
    if s.len() == 0 {
        0
    } else {
        seq_val(s.drop_last()) * 10 + (s.last() - 0x30) as nat
    }
}

/// The digits of `n` are decimal digit characters whose run has the
/// value `n`.
proof fn lemma_dec_digits_shape(n: nat)
    ensures
        dec_digits(n).len() >= 1,
        forall|i: int| 0 <= i < dec_digits(n).len() ==> is_digit(#[trigger] dec_digits(n)[i]),
        seq_val(dec_digits(n)) == n,
    decreases n,
{
    if n < 10 {
        assert(dec_digits(n) == seq![(0x30 + n) as u8]);
        assert(seq_val(Seq::<u8>::empty()) == 0);
        assert(dec_digits(n).drop_last() =~= Seq::<u8>::empty());
        assert(seq_val(dec_digits(n)) == seq_val(Seq::<u8>::empty()) * 10 + n);
    } else {
        lemma_dec_digits_shape(n / 10);
        let s = dec_digits(n);
        assert(s == dec_digits(n / 10).push((0x30 + n % 10) as u8));
        assert(s.drop_last() =~= dec_digits(n / 10));
        assert(s.last() == (0x30 + n % 10) as u8);
        assert(seq_val(s) == (n / 10) * 10 + n % 10);
        assert((n / 10) * 10 + n % 10 == n) by (nonlinear_arith);
        assert forall|i: int| 0 <= i < s.len() implies is_digit(#[trigger] s[i]) by {
            if i < s.len() - 1 {
                assert(s[i] == dec_digits(n / 10)[i]);
            }
        }
    }
}

/// Splitting off the first digit of a run splits its value at the
/// matching power of ten.
proof fn lemma_seq_val_head(s: Seq<u8>)
    requires
        s.len() >= 1,
        forall|i: int| 0 <= i < s.len() ==> is_digit(#[trigger] s[i]),
    ensures
        seq_val(s) == (s[0] - 0x30) * pow10((s.len() - 1) as nat) + seq_val(s.drop_first()),
    decreases s.len(),
{
    if s.len() == 1 {
        assert(s.drop_last() =~= Seq::<u8>::empty());
        assert(s.drop_first() =~= Seq::<u8>::empty());
        assert(seq_val(Seq::<u8>::empty()) == 0);
        assert(s.last() == s[0]);
        assert(seq_val(s) == (s[0] - 0x30) as nat);
        assert(pow10(0) == 1);
        assert((s[0] - 0x30) * pow10((s.len() - 1) as nat) == s[0] - 0x30) by (nonlinear_arith)
            requires
                pow10((s.len() - 1) as nat) == 1,
        ;
    } else {
        let dl = s.drop_last();
        assert(dl.len() == s.len() - 1);
        assert forall|i: int| 0 <= i < dl.len() implies is_digit(#[trigger] dl[i]) by {
            assert(dl[i] == s[i]);
        }
        lemma_seq_val_head(dl);
        assert(dl[0] == s[0]);
        assert(dl.drop_first() =~= s.drop_first().drop_last());
        assert(s.drop_first().last() == s.last());
        assert(seq_val(s.drop_first()) == seq_val(s.drop_first().drop_last()) * 10 + (s.last()
            - 0x30) as nat);
        assert(seq_val(s) == seq_val(dl) * 10 + (s.last() - 0x30) as nat);
        assert(seq_val(dl) * 10 == ((s[0] - 0x30) * pow10((dl.len() - 1) as nat) + seq_val(
            dl.drop_first(),
        )) * 10);
        assert(((s[0] - 0x30) * pow10((dl.len() - 1) as nat) + seq_val(dl.drop_first())) * 10 == (
        s[0] - 0x30) * (10 * pow10((dl.len() - 1) as nat)) + seq_val(dl.drop_first()) * 10)
            by (nonlinear_arith);
        assert(pow10((s.len() - 1) as nat) == 10 * pow10((s.len() - 2) as nat));
    }
}

/// Scanning a digit run standing as a window of `b`, and ended by a
/// non-digit, accumulates exactly its value.
proof fn lemma_scan_window(b: Seq<u8>, i: int, s: Seq<u8>, acc: nat)
    requires
        s.len() >= 1,
        forall|k: int| 0 <= k < s.len() ==> is_digit(#[trigger] s[k]),
        0 <= i,
        i + s.len() <= b.len(),
        b.subrange(i, i + s.len()) == s,
        i + s.len() == b.len() || !is_digit(b[i + s.len()]),
        acc * pow10(s.len()) + seq_val(s) <= 0xFFFFFFFF,
    ensures
        scan_digits(b, i, acc) == Some(((acc * pow10(s.len()) + seq_val(s)) as nat, i + s.len())),
    decreases s.len(),
{
    lemma_window_index(b, i, s);
    lemma_seq_val_head(s);
    let d = (s[0] - 0x30) as nat;
    let acc2 = (acc * 10 + d) as nat;
    assert(b[i] == s[0]);
    assert(is_digit(b[i]));
    // the next accumulator stays within range
    assert(pow10((s.len() - 1) as nat) >= 1) by {
        lemma_pow10_pos((s.len() - 1) as nat);
    }
    assert(acc * pow10(s.len()) == (acc * 10) * pow10((s.len() - 1) as nat))
        by (nonlinear_arith)
        requires
            pow10(s.len()) == 10 * pow10((s.len() - 1) as nat),
    ;
    assert(acc2 * pow10((s.len() - 1) as nat) + seq_val(s.drop_first()) == acc * pow10(s.len())
        + seq_val(s)) by (nonlinear_arith)
        requires
            acc2 == acc * 10 + d,
            acc * pow10(s.len()) == (acc * 10) * pow10((s.len() - 1) as nat),
            seq_val(s) == d * pow10((s.len() - 1) as nat) + seq_val(s.drop_first()),
    ;
    assert(acc2 <= acc2 * pow10((s.len() - 1) as nat)) by (nonlinear_arith)
        requires
            pow10((s.len() - 1) as nat) >= 1,
    ;
    assert(acc2 <= 0xFFFFFFFF);
    if s.len() == 1 {
        assert(scan_digits(b, i, acc) == scan_digits(b, i + 1, acc2));
        assert(pow10(0) == 1);
        assert(pow10(1) == 10);
        assert(seq_val(s.drop_first()) == 0) by {
            assert(s.drop_first() =~= Seq::<u8>::empty());
        }
        assert((s[0] - 0x30) * pow10((s.len() - 1) as nat) == s[0] - 0x30) by (nonlinear_arith)
            requires
                pow10((s.len() - 1) as nat) == 1,
        ;
        assert(seq_val(s) == d);
        assert(scan_digits(b, i + 1, acc2) == Some((acc2, i + 1)));
        assert(acc * pow10(s.len()) + seq_val(s) == acc2);
    } else {
        let rest = s.drop_first();
        assert forall|k: int| 0 <= k < rest.len() implies is_digit(#[trigger] rest[k]) by {
            assert(rest[k] == s[k + 1]);
        }
        lemma_window_sub(b, i, s, 1, s.len() as int);
        assert(s.subrange(1, s.len() as int) =~= rest);
        lemma_scan_window(b, i + 1, rest, acc2);
        assert(scan_digits(b, i, acc) == scan_digits(b, i + 1, acc2));
        assert(scan_digits(b, i + 1, acc2) == Some(
            ((acc2 * pow10(rest.len()) + seq_val(rest)) as nat, i + 1 + rest.len()),
        ));
        assert((acc2 * pow10(rest.len()) + seq_val(rest)) as nat == (acc * pow10(s.len())
            + seq_val(s)) as nat);
    }
}

/// Ten to any power is positive.
proof fn lemma_pow10_pos(k: nat)
    ensures
        pow10(k) >= 1,
    decreases k,
{
    if k > 0 {
        lemma_pow10_pos((k - 1) as nat);
    }
}

/// Parsing the decimal text of `n`, ended by a non-digit, yields `n`.
proof fn lemma_p_uint_window(b: Seq<u8>, i: int, n: nat)
    requires
        n <= 0xFFFFFFFF,
        0 <= i,
        i + dec_digits(n).len() <= b.len(),
        b.subrange(i, i + dec_digits(n).len()) == dec_digits(n),
        i + dec_digits(n).len() == b.len() || !is_digit(b[i + dec_digits(n).len()]),
    ensures
        p_uint(b, i) == Some((n, i + dec_digits(n).len())),
{
    lemma_dec_digits_shape(n);
    lemma_window_index(b, i, dec_digits(n));
    assert(is_digit(b[i]));
    lemma_scan_window(b, i, dec_digits(n), 0);
}

/// Parsing the decimal text of `v`, ended by a non-digit, yields `v`.
pub proof fn lemma_p_int_window(b: Seq<u8>, i: int, v: int)
    requires
        -0xFFFFFFFF <= v <= 0xFFFFFFFF,
        0 <= i,
        i + int_text(v).len() <= b.len(),
        b.subrange(i, i + int_text(v).len()) == int_text(v),
        i + int_text(v).len() == b.len() || !is_digit(b[i + int_text(v).len()]),
    ensures
        p_int(b, i) == Some((v, i + int_text(v).len())),
{
    lemma_window_index(b, i, int_text(v));
    if v < 0 {
        let m = (-v) as nat;
        assert(int_text(v) == seq![0x2Du8] + dec_digits(m));
        assert(b[i] == 0x2D);
        lemma_window_sub(b, i, int_text(v), 1, int_text(v).len() as int);
        assert(int_text(v).subrange(1, int_text(v).len() as int) =~= dec_digits(m));
        lemma_p_uint_window(b, i + 1, m);
    } else {
        lemma_dec_digits_shape(v as nat);
        assert(b[i] == dec_digits(v as nat)[0]);
        assert(is_digit(b[i]));
        assert(b[i] != 0x2D);
        lemma_p_uint_window(b, i, v as nat);
    }
}

// ---------------------------------------------------------------------
// Hexadecimal bytes and byte-array literals
// ---------------------------------------------------------------------

/// A hex digit character decodes to its value.
proof fn lemma_hexd_val(d: int)
    requires
        0 <= d < 16,
    ensures
        hexval(hexd(d)) == Some(d),
{
}

/// Parsing the `0xHH` text of `v` yields `v`.
proof fn lemma_p_hex_byte_window(b: Seq<u8>, i: int, v: u8)
    requires
        0 <= i,
        i + 4 <= b.len(),
        b.subrange(i, i + 4) == hex_byte(v),
    ensures
        p_hex_byte(b, i) == Some((v, i + 4)),
{
    lemma_window_index(b, i, hex_byte(v));
    lemma_hexd_val(v as int / 16);
    lemma_hexd_val(v as int % 16);
    assert(b[i] == 0x30 && b[i + 1] == 0x78);
    assert(hexval(b[i + 2]) == Some(v as int / 16));
    assert(hexval(b[i + 3]) == Some(v as int % 16));
    assert((v as int / 16) * 16 + v as int % 16 == v as int);
}

/// Parsing the two bare hex digits of `v` yields `v`.
pub proof fn lemma_p_hex2_window(b: Seq<u8>, i: int, v: u8)
    requires
        0 <= i,
        i + 2 <= b.len(),
        b.subrange(i, i + 2) == hex2(v),
    ensures
        p_hex2(b, i) == Some((v, i + 2)),
{
    lemma_window_index(b, i, hex2(v));
    lemma_hexd_val(v as int / 16);
    lemma_hexd_val(v as int % 16);
    assert((v as int / 16) * 16 + v as int % 16 == v as int);
}

/// Parsing the items of a byte-array literal, up to its closing
/// bracket, yields the record.
proof fn lemma_p_bytes_items_window(b: Seq<u8>, i: int, s: Seq<u8>, acc: Seq<u8>)
    requires
        0 <= i,
        i + bytes_items_text(s).len() + 1 <= b.len(),
        b.subrange(i, i + bytes_items_text(s).len() + 1) == bytes_items_text(s) + seq![0x5Du8],
    ensures
        p_bytes_items(b, i, acc) == Some((acc + s, i + bytes_items_text(s).len() + 1)),
    decreases s.len(),
{
    let e = bytes_items_text(s) + seq![0x5Du8];
    lemma_window_index(b, i, e);
    if s.len() == 0 {
        assert(bytes_items_text(s) == Seq::<u8>::empty());
        assert(e[0] == 0x5D);
        assert(b[i] == 0x5D);
        assert(acc + s =~= acc);
    } else {
        assert(bytes_items_text(s) == hex_byte(s[0]) + sep_items_text(s.drop_first()));
        assert(e[0] == hex_byte(s[0])[0]);
        assert(hex_byte(s[0])[0] == 0x30);
        assert(b[i] == 0x30);
        assert(b[i] != 0x5D);
        lemma_window_sub(b, i, e, 0, 4);
        assert(e.subrange(0, 4) =~= hex_byte(s[0]));
        lemma_p_hex_byte_window(b, i, s[0]);
        let j = i + 4;
        if s.len() == 1 {
            assert(sep_items_text(s.drop_first()) == Seq::<u8>::empty()) by {
                assert(s.drop_first() =~= Seq::<u8>::empty());
            }
            assert(e[4] == 0x5D);
            assert(b[j] == 0x5D);
            assert(acc.push(s[0]) =~= acc + s);
        } else {
            let rest = s.drop_first();
            assert(sep_items_text(rest) == seq![0x2Cu8, 0x20u8] + hex_byte(rest[0])
                + sep_items_text(rest.drop_first()));
            assert(e[4] == 0x2C);
            assert(e[5] == 0x20);
            assert(b[j] == 0x2C && b[j + 1] == 0x20);
            assert(b[j] != 0x5D);
            lemma_window_sub(b, i, e, 6, e.len() as int);
            assert(e.subrange(6, e.len() as int) =~= bytes_items_text(rest) + seq![0x5Du8]) by {
                assert(bytes_items_text(rest) == hex_byte(rest[0]) + sep_items_text(
                    rest.drop_first(),
                ));
            }
            lemma_p_bytes_items_window(b, j + 2, rest, acc.push(s[0]));
            assert(acc.push(s[0]) + rest =~= acc + s);
        }
    }
}

/// Parsing the byte-array literal of `s` yields `s`.
pub proof fn lemma_p_bytes_window(b: Seq<u8>, i: int, s: Seq<u8>)
    requires
        0 <= i,
        i + bytes_text(s).len() <= b.len(),
        b.subrange(i, i + bytes_text(s).len()) == bytes_text(s),
    ensures
        p_bytes(b, i) == Some((s, i + bytes_text(s).len())),
{
    let e = bytes_text(s);
    lemma_window_index(b, i, e);
    assert(e[0] == 0x5B);
    assert(b[i] == 0x5B);
    lemma_window_sub(b, i, e, 1, e.len() as int);
    assert(e.subrange(1, e.len() as int) =~= bytes_items_text(s) + seq![0x5Du8]);
    lemma_p_bytes_items_window(b, i + 1, s, Seq::empty());
    assert(Seq::<u8>::empty() + s =~= s);
}

// ---------------------------------------------------------------------
// Structure windows
// ---------------------------------------------------------------------

/// Reading back the written object items yields the slots.
proof fn lemma_p_obj_items_window(b: Seq<u8>, i: int, s: Seq<Option<Seq<u8>>>, acc: Seq<
    Option<Seq<u8>>,
>)
    requires
        forall|k: int|
            0 <= k < s.len() ==> ((#[trigger] s[k]) matches Some(r) ==> r.len() > 0),
        0 <= i,
        i + emit_obj_items(s).len() + txt_objects_close().len() <= b.len(),
        b.subrange(i, i + emit_obj_items(s).len() + txt_objects_close().len())
            == emit_obj_items(s) + txt_objects_close(),
    ensures
        p_obj_items(b, i, acc) == Some(
            (acc + s, i + emit_obj_items(s).len() + txt_objects_close().len()),
        ),
    decreases s.len(),
{
    lemma_lit_lens();
    let e = emit_obj_items(s) + txt_objects_close();
    lemma_window_index(b, i, e);
    if s.len() == 0 {
        assert(emit_obj_items(s) == Seq::<u8>::empty());
        assert(e =~= txt_objects_close());
        assert(e[6] == txt_objects_close()[6]);
        assert(txt_item_indent()[6] != txt_objects_close()[6]) by {
            reveal(txt_item_indent);
            reveal(txt_objects_close);
        }
        lemma_eat_mismatch(b, i, txt_item_indent(), 6);
        lemma_eat_match(b, i, txt_objects_close());
        assert(acc + s =~= acc);
    } else {
        let slot = obj_slot_text(s[0]);
        assert(emit_obj_items(s) == txt_item_indent() + slot + txt_item_end() + emit_obj_items(
            s.drop_first(),
        ));
        lemma_window_sub(b, i, e, 0, 8);
        assert(e.subrange(0, 8) =~= txt_item_indent());
        lemma_eat_match(b, i, txt_item_indent());
        let j = i + 8;
        let bs: Seq<u8> = match s[0] {
            Some(r) => r,
            None => Seq::empty(),
        };
        assert(slot == bytes_text(bs));
        lemma_window_sub(b, i, e, 8, 8 + slot.len() as int);
        assert(e.subrange(8, 8 + slot.len() as int) =~= slot);
        lemma_p_bytes_window(b, j, bs);
        let k = j + slot.len();
        lemma_window_sub(b, i, e, 8 + slot.len() as int, 8 + slot.len() as int + 2);
        assert(e.subrange(8 + slot.len() as int, 8 + slot.len() as int + 2) =~= txt_item_end());
        lemma_eat_match(b, k, txt_item_end());
        let m = k + 2;
        let pushed: Option<Seq<u8>> = if bs.len() == 0 {
            Option::None
        } else {
            Some(bs)
        };
        assert(pushed == s[0]);
        lemma_window_sub(b, i, e, m - i, e.len() as int);
        assert(e.subrange(m - i, e.len() as int) =~= emit_obj_items(s.drop_first())
            + txt_objects_close());
        assert forall|t: int|
            0 <= t < s.drop_first().len() implies ((#[trigger] s.drop_first()[t]) matches Some(r)
            ==> r.len() > 0) by {
            assert(s.drop_first()[t] == s[t + 1]);
        }
        lemma_p_obj_items_window(b, m, s.drop_first(), acc.push(s[0]));
        assert(acc.push(s[0]) + s.drop_first() =~= acc + s);
        assert(p_obj_items(b, i, acc) == p_obj_items(b, m, acc.push(s[0])));
    }
}

/// Reading back the written prop items yields the records.
proof fn lemma_p_prop_items_window(b: Seq<u8>, i: int, s: Seq<Seq<u8>>, acc: Seq<Seq<u8>>)
    requires
        0 <= i,
        i + emit_prop_items(s).len() + txt_props_close().len() <= b.len(),
        b.subrange(i, i + emit_prop_items(s).len() + txt_props_close().len())
            == emit_prop_items(s) + txt_props_close(),
    ensures
        p_prop_items(b, i, acc) == Some(
            (acc + s, i + emit_prop_items(s).len() + txt_props_close().len()),
        ),
    decreases s.len(),
{
    lemma_lit_lens();
    let e = emit_prop_items(s) + txt_props_close();
    lemma_window_index(b, i, e);
    if s.len() == 0 {
        assert(emit_prop_items(s) == Seq::<u8>::empty());
        assert(e =~= txt_props_close());
        assert(e[6] == txt_props_close()[6]);
        assert(txt_item_indent()[6] != txt_props_close()[6]) by {
            reveal(txt_item_indent);
            reveal(txt_props_close);
        }
        lemma_eat_mismatch(b, i, txt_item_indent(), 6);
        lemma_eat_match(b, i, txt_props_close());
        assert(acc + s =~= acc);
    } else {
        let slot = bytes_text(s[0]);
        assert(emit_prop_items(s) == txt_item_indent() + slot + txt_item_end() + emit_prop_items(
            s.drop_first(),
        ));
        lemma_window_sub(b, i, e, 0, 8);
        assert(e.subrange(0, 8) =~= txt_item_indent());
        lemma_eat_match(b, i, txt_item_indent());
        let j = i + 8;
        lemma_window_sub(b, i, e, 8, 8 + slot.len() as int);
        assert(e.subrange(8, 8 + slot.len() as int) =~= slot);
        lemma_p_bytes_window(b, j, s[0]);
        let k = j + slot.len();
        lemma_window_sub(b, i, e, 8 + slot.len() as int, 8 + slot.len() as int + 2);
        assert(e.subrange(8 + slot.len() as int, 8 + slot.len() as int + 2) =~= txt_item_end());
        lemma_eat_match(b, k, txt_item_end());
        let m = k + 2;
        lemma_window_sub(b, i, e, m - i, e.len() as int);
        assert(e.subrange(m - i, e.len() as int) =~= emit_prop_items(s.drop_first())
            + txt_props_close());
        lemma_p_prop_items_window(b, m, s.drop_first(), acc.push(s[0]));
        assert(acc.push(s[0]) + s.drop_first() =~= acc + s);
        assert(p_prop_items(b, i, acc) == p_prop_items(b, m, acc.push(s[0])));
    }
}

/// Reading back one written voxel entry yields the voxel.
#[verifier::rlimit(100)]
proof fn lemma_p_voxel_window(b: Seq<u8>, i: int, v: VoxelV)
    requires
        voxel_valid(v),
        0 <= i,
        i + emit_voxel_text(v).len() <= b.len(),
        b.subrange(i, i + emit_voxel_text(v).len()) == emit_voxel_text(v),
    ensures
        p_voxel_t(b, i) == Some((v, i + emit_voxel_text(v).len())),
{
    lemma_lit_lens();
    let e = emit_voxel_text(v);
    let oblock: Seq<u8> = if v.objects.len() == 0 {
        txt_objects_none()
    } else {
        txt_objects_open() + emit_obj_items(v.objects) + txt_objects_close()
    };
    let pblock: Seq<u8> = if v.props.len() == 0 {
        txt_props_none()
    } else {
        txt_props_open() + emit_prop_items(v.props) + txt_props_close()
    };
    assert(e == txt_entry_open() + oblock + pblock + txt_entry_close());
    lemma_window_index(b, i, e);
    lemma_window_sub(b, i, e, 0, 8);
    assert(e.subrange(0, 8) =~= txt_entry_open());
    lemma_eat_match(b, i, txt_entry_open());
    let j = i + 8;
    let objects: Seq<Option<Seq<u8>>>;
    let k2 = j + oblock.len();
    if v.objects.len() == 0 {
        lemma_window_sub(b, i, e, 8, 8int + 19);
        assert(e.subrange(8, 8int + 19) =~= txt_objects_none());
        lemma_eat_match(b, j, txt_objects_none());
        objects = Seq::empty();
        assert(objects =~= v.objects);
    } else {
        lemma_window_sub(b, i, e, 8, 8int + 17);
        assert(e.subrange(8, 8int + 17) =~= txt_objects_open());
        assert(b[j + 16] == txt_objects_open()[16]);
        assert(txt_objects_none()[16] != txt_objects_open()[16]) by {
            reveal(txt_objects_none);
            reveal(txt_objects_open);
        }
        lemma_eat_mismatch(b, j, txt_objects_none(), 16);
        lemma_eat_match(b, j, txt_objects_open());
        lemma_window_sub(b, i, e, 8int + 17, 8 + oblock.len() as int);
        assert(e.subrange(8int + 17, 8 + oblock.len() as int) =~= emit_obj_items(v.objects)
            + txt_objects_close());
        assert forall|t: int|
            0 <= t < v.objects.len() implies ((#[trigger] v.objects[t]) matches Some(r)
            ==> r.len() > 0) by {
            assert(v.objects[t] matches Some(r) ==> r.len() == 20);
        }
        lemma_p_obj_items_window(b, j + 17, v.objects, Seq::empty());
        objects = Seq::<Option<Seq<u8>>>::empty() + v.objects;
        assert(objects =~= v.objects);
    }
    let props: Seq<Seq<u8>>;
    let m2 = k2 + pblock.len();
    if v.props.len() == 0 {
        lemma_window_sub(b, i, e, k2 - i, k2 - i + 16);
        assert(e.subrange(k2 - i, k2 - i + 16) =~= txt_props_none());
        lemma_eat_match(b, k2, txt_props_none());
        props = Seq::empty();
        assert(props =~= v.props);
    } else {
        lemma_window_sub(b, i, e, k2 - i, k2 - i + 15);
        assert(e.subrange(k2 - i, k2 - i + 15) =~= txt_props_open());
        assert(b[k2 + 14] == txt_props_open()[14]);
        assert(txt_props_none()[14] != txt_props_open()[14]) by {
            reveal(txt_props_none);
            reveal(txt_props_open);
        }
        lemma_eat_mismatch(b, k2, txt_props_none(), 14);
        lemma_eat_match(b, k2, txt_props_open());
        lemma_window_sub(b, i, e, k2 - i + 15, k2 - i + pblock.len() as int);
        assert(e.subrange(k2 - i + 15, k2 - i + pblock.len() as int) =~= emit_prop_items(v.props)
            + txt_props_close());
        lemma_p_prop_items_window(b, k2 + 15, v.props, Seq::empty());
        props = Seq::<Seq<u8>>::empty() + v.props;
        assert(props =~= v.props);
    }
    lemma_window_sub(b, i, e, m2 - i, e.len() as int);
    assert(e.subrange(m2 - i, e.len() as int) =~= txt_entry_close());
    lemma_eat_match(b, m2, txt_entry_close());
    assert((VoxelV { objects: v.objects, props: v.props }) =~= v);
}

/// Reading back the written voxel entries yields them all, stopping
/// where no entry opens.
proof fn lemma_p_voxel_items_window(b: Seq<u8>, i: int, s: Seq<VoxelV>, acc: Seq<VoxelV>)
    requires
        forall|k: int| 0 <= k < s.len() ==> voxel_valid(#[trigger] s[k]),
        0 <= i,
        i + emit_voxel_items(s).len() <= b.len(),
        b.subrange(i, i + emit_voxel_items(s).len()) == emit_voxel_items(s),
        eat_lit_s(b, i + emit_voxel_items(s).len(), txt_entry_open()) is None,
    ensures
        p_voxel_items(b, i, acc) == Some((acc + s, i + emit_voxel_items(s).len())),
    decreases s.len(),
{
    lemma_lit_lens();
    let e = emit_voxel_items(s);
    if s.len() == 0 {
        assert(e =~= Seq::<u8>::empty());
        assert(acc + s =~= acc);
    } else {
        let e0 = emit_voxel_text(s[0]);
        assert(e == e0 + emit_voxel_items(s.drop_first()));
        lemma_window_sub(b, i, e, 0, e0.len() as int);
        assert(e.subrange(0, e0.len() as int) =~= e0);
        lemma_p_voxel_window(b, i, s[0]);
        // the entry opens, so the loop takes it
        lemma_window_sub(b, i, e0, 0, 8);
        assert(e0 == txt_entry_open() + (e0.subrange(8, e0.len() as int)));
        assert(e0.subrange(0, 8) =~= txt_entry_open());
        lemma_eat_match(b, i, txt_entry_open());
        let j = i + e0.len();
        lemma_window_sub(b, i, e, e0.len() as int, e.len() as int);
        assert(e.subrange(e0.len() as int, e.len() as int) =~= emit_voxel_items(s.drop_first()));
        assert forall|k: int| 0 <= k < s.drop_first().len() implies voxel_valid(
            #[trigger] s.drop_first()[k],
        ) by {
            assert(s.drop_first()[k] == s[k + 1]);
        }
        lemma_p_voxel_items_window(b, j, s.drop_first(), acc.push(s[0]));
        assert(acc.push(s[0]) + s.drop_first() =~= acc + s);
        assert(p_voxel_items(b, i, acc) == p_voxel_items(b, j, acc.push(s[0])));
    }
}

/// The head of the voxel mapping up to and including the start
/// triple's closing brace.
spec fn voxels_prefix_a(vl: VoxelListV) -> Seq<u8> {
    txt_voxels_hdr() + txt_start_pos() + int_text(vl.start_position.x as int) + txt_comma_y()
        + int_text(vl.start_position.y as int) + txt_comma_z() + int_text(
        vl.start_position.z as int,
    ) + txt_close_map()
}

/// The rest of the voxel mapping's head: the end triple and the list
/// header.
spec fn voxels_prefix_b(vl: VoxelListV) -> Seq<u8> {
    txt_end_pos() + int_text(vl.end_position.x as int) + txt_comma_y() + int_text(
        vl.end_position.y as int,
    ) + txt_comma_z() + int_text(vl.end_position.z as int) + txt_close_map() + txt_voxels_list()
}

/// Reading back the start triple of the voxel mapping.
#[verifier::rlimit(100)]
proof fn lemma_p_voxels_a(b: Seq<u8>, i: int, vl: VoxelListV)
    requires
        0 <= i,
        i + voxels_prefix_a(vl).len() <= b.len(),
        b.subrange(i, i + voxels_prefix_a(vl).len()) == voxels_prefix_a(vl),
    ensures
        eat_lit_s(b, i, txt_voxels_hdr()) == Some(i + 8),
        eat_lit_s(b, i + 8, txt_start_pos()) == Some(i + 30),
        p_int(b, i + 30) == Some(
            (vl.start_position.x as int, i + 30 + int_text(vl.start_position.x as int).len()),
        ),
        eat_lit_s(b, i + 30 + int_text(vl.start_position.x as int).len(), txt_comma_y()) == Some(
            i + 35 + int_text(vl.start_position.x as int).len(),
        ),
        p_int(b, i + 35 + int_text(vl.start_position.x as int).len()) == Some(
            (
                vl.start_position.y as int,
                i + 35 + int_text(vl.start_position.x as int).len() + int_text(
                    vl.start_position.y as int,
                ).len(),
            ),
        ),
        eat_lit_s(
            b,
            i + 35 + int_text(vl.start_position.x as int).len() + int_text(
                vl.start_position.y as int,
            ).len(),
            txt_comma_z(),
        ) == Some(
            i + 40 + int_text(vl.start_position.x as int).len() + int_text(
                vl.start_position.y as int,
            ).len(),
        ),
        p_int(
            b,
            i + 40 + int_text(vl.start_position.x as int).len() + int_text(
                vl.start_position.y as int,
            ).len(),
        ) == Some(
            (
                vl.start_position.z as int,
                i + 40 + int_text(vl.start_position.x as int).len() + int_text(
                    vl.start_position.y as int,
                ).len() + int_text(vl.start_position.z as int).len(),
            ),
        ),
        eat_lit_s(
            b,
            i + 40 + int_text(vl.start_position.x as int).len() + int_text(
                vl.start_position.y as int,
            ).len() + int_text(vl.start_position.z as int).len(),
            txt_close_map(),
        ) == Some(
            i + 43 + int_text(vl.start_position.x as int).len() + int_text(
                vl.start_position.y as int,
            ).len() + int_text(vl.start_position.z as int).len(),
        ),
{
    lemma_lit_lens();
    let pre = voxels_prefix_a(vl);
    let sx = vl.start_position.x as int;
    let sy = vl.start_position.y as int;
    let sz = vl.start_position.z as int;
    let lsx = int_text(sx).len() as int;
    let lsy = int_text(sy).len() as int;
    let lsz = int_text(sz).len() as int;
    let o1 = 8int;
    let o2 = o1 + 22;
    let o3 = o2 + lsx;
    let o4 = o3 + 5;
    let o5 = o4 + lsy;
    let o6 = o5 + 5;
    let o7 = o6 + lsz;
    let o8 = o7 + 3;
    assert(pre.len() == o8);
    lemma_window_sub(b, i, pre, 0, o1);
    assert(pre.subrange(0, o1) =~= txt_voxels_hdr());
    lemma_eat_match(b, i, txt_voxels_hdr());
    lemma_window_sub(b, i, pre, o1, o2);
    assert(pre.subrange(o1, o2) =~= txt_start_pos());
    lemma_eat_match(b, i + o1, txt_start_pos());
    lemma_window_sub(b, i, pre, o2, o3);
    assert(pre.subrange(o2, o3) =~= int_text(sx));
    lemma_window_sub(b, i, pre, o3, o4);
    assert(pre.subrange(o3, o4) =~= txt_comma_y());
    lemma_window_index(b, i + o3, txt_comma_y());
    assert(!is_digit(txt_comma_y()[0])) by {
        reveal(txt_comma_y);
    }
    lemma_p_int_window(b, i + o2, sx);
    lemma_eat_match(b, i + o3, txt_comma_y());
    lemma_window_sub(b, i, pre, o4, o5);
    assert(pre.subrange(o4, o5) =~= int_text(sy));
    lemma_window_sub(b, i, pre, o5, o6);
    assert(pre.subrange(o5, o6) =~= txt_comma_z());
    lemma_window_index(b, i + o5, txt_comma_z());
    assert(!is_digit(txt_comma_z()[0])) by {
        reveal(txt_comma_z);
    }
    lemma_p_int_window(b, i + o4, sy);
    lemma_eat_match(b, i + o5, txt_comma_z());
    lemma_window_sub(b, i, pre, o6, o7);
    assert(pre.subrange(o6, o7) =~= int_text(sz));
    lemma_window_sub(b, i, pre, o7, o8);
    assert(pre.subrange(o7, o8) =~= txt_close_map());
    lemma_window_index(b, i + o7, txt_close_map());
    assert(!is_digit(txt_close_map()[0])) by {
        reveal(txt_close_map);
    }
    lemma_p_int_window(b, i + o6, sz);
    lemma_eat_match(b, i + o7, txt_close_map());
}

/// Reading back the end triple and list header of the voxel mapping.
#[verifier::rlimit(100)]
proof fn lemma_p_voxels_b(b: Seq<u8>, i: int, vl: VoxelListV)
    requires
        0 <= i,
        i + voxels_prefix_b(vl).len() <= b.len(),
        b.subrange(i, i + voxels_prefix_b(vl).len()) == voxels_prefix_b(vl),
    ensures
        eat_lit_s(b, i, txt_end_pos()) == Some(i + 20),
        p_int(b, i + 20) == Some(
            (vl.end_position.x as int, i + 20 + int_text(vl.end_position.x as int).len()),
        ),
        eat_lit_s(b, i + 20 + int_text(vl.end_position.x as int).len(), txt_comma_y()) == Some(
            i + 25 + int_text(vl.end_position.x as int).len(),
        ),
        p_int(b, i + 25 + int_text(vl.end_position.x as int).len()) == Some(
            (
                vl.end_position.y as int,
                i + 25 + int_text(vl.end_position.x as int).len() + int_text(
                    vl.end_position.y as int,
                ).len(),
            ),
        ),
        eat_lit_s(
            b,
            i + 25 + int_text(vl.end_position.x as int).len() + int_text(
                vl.end_position.y as int,
            ).len(),
            txt_comma_z(),
        ) == Some(
            i + 30 + int_text(vl.end_position.x as int).len() + int_text(
                vl.end_position.y as int,
            ).len(),
        ),
        p_int(
            b,
            i + 30 + int_text(vl.end_position.x as int).len() + int_text(
                vl.end_position.y as int,
            ).len(),
        ) == Some(
            (
                vl.end_position.z as int,
                i + 30 + int_text(vl.end_position.x as int).len() + int_text(
                    vl.end_position.y as int,
                ).len() + int_text(vl.end_position.z as int).len(),
            ),
        ),
        eat_lit_s(
            b,
            i + 30 + int_text(vl.end_position.x as int).len() + int_text(
                vl.end_position.y as int,
            ).len() + int_text(vl.end_position.z as int).len(),
            txt_close_map(),
        ) == Some(
            i + 33 + int_text(vl.end_position.x as int).len() + int_text(
                vl.end_position.y as int,
            ).len() + int_text(vl.end_position.z as int).len(),
        ),
        eat_lit_s(
            b,
            i + 33 + int_text(vl.end_position.x as int).len() + int_text(
                vl.end_position.y as int,
            ).len() + int_text(vl.end_position.z as int).len(),
            txt_voxels_list(),
        ) == Some(
            i + 43 + int_text(vl.end_position.x as int).len() + int_text(
                vl.end_position.y as int,
            ).len() + int_text(vl.end_position.z as int).len(),
        ),
{
    lemma_lit_lens();
    let pre = voxels_prefix_b(vl);
    let ex = vl.end_position.x as int;
    let ey = vl.end_position.y as int;
    let ez = vl.end_position.z as int;
    let lex = int_text(ex).len() as int;
    let ley = int_text(ey).len() as int;
    let lez = int_text(ez).len() as int;
    let o1 = 20int;
    let o2 = o1 + lex;
    let o3 = o2 + 5;
    let o4 = o3 + ley;
    let o5 = o4 + 5;
    let o6 = o5 + lez;
    let o7 = o6 + 3;
    let o8 = o7 + 10;
    assert(pre.len() == o8);
    lemma_window_sub(b, i, pre, 0, o1);
    assert(pre.subrange(0, o1) =~= txt_end_pos());
    lemma_eat_match(b, i, txt_end_pos());
    lemma_window_sub(b, i, pre, o1, o2);
    assert(pre.subrange(o1, o2) =~= int_text(ex));
    lemma_window_sub(b, i, pre, o2, o3);
    assert(pre.subrange(o2, o3) =~= txt_comma_y());
    lemma_window_index(b, i + o2, txt_comma_y());
    assert(!is_digit(txt_comma_y()[0])) by {
        reveal(txt_comma_y);
    }
    lemma_p_int_window(b, i + o1, ex);
    lemma_eat_match(b, i + o2, txt_comma_y());
    lemma_window_sub(b, i, pre, o3, o4);
    assert(pre.subrange(o3, o4) =~= int_text(ey));
    lemma_window_sub(b, i, pre, o4, o5);
    assert(pre.subrange(o4, o5) =~= txt_comma_z());
    lemma_window_index(b, i + o4, txt_comma_z());
    assert(!is_digit(txt_comma_z()[0])) by {
        reveal(txt_comma_z);
    }
    lemma_p_int_window(b, i + o3, ey);
    lemma_eat_match(b, i + o4, txt_comma_z());
    lemma_window_sub(b, i, pre, o5, o6);
    assert(pre.subrange(o5, o6) =~= int_text(ez));
    lemma_window_sub(b, i, pre, o6, o7);
    assert(pre.subrange(o6, o7) =~= txt_close_map());
    lemma_window_index(b, i + o6, txt_close_map());
    assert(!is_digit(txt_close_map()[0])) by {
        reveal(txt_close_map);
    }
    lemma_p_int_window(b, i + o5, ez);
    lemma_eat_match(b, i + o6, txt_close_map());
    lemma_window_sub(b, i, pre, o7, o8);
    assert(pre.subrange(o7, o8) =~= txt_voxels_list());
    lemma_eat_match(b, i + o7, txt_voxels_list());
}

/// Reading back the written `voxels:` mapping yields the voxel list.
#[verifier::rlimit(100)]
proof fn lemma_p_voxels_window(b: Seq<u8>, i: int, vl: VoxelListV)
    requires
        forall|k: int| 0 <= k < vl.voxels.len() ==> voxel_valid(#[trigger] vl.voxels[k]),
        0 <= i,
        i + emit_voxels_text(vl).len() <= b.len(),
        b.subrange(i, i + emit_voxels_text(vl).len()) == emit_voxels_text(vl),
        eat_lit_s(b, i + emit_voxels_text(vl).len(), txt_entry_open()) is None,
    ensures
        p_voxels_t(b, i) == Some((vl, i + emit_voxels_text(vl).len())),
{
    lemma_lit_lens();
    let e = emit_voxels_text(vl);
    let pre = emit_voxels_prefix(vl);
    let pa = voxels_prefix_a(vl);
    let pb = voxels_prefix_b(vl);
    assert(pre =~= pa + pb);
    assert(e == pre + emit_voxel_items(vl.voxels));
    lemma_window_sub(b, i, e, 0, pa.len() as int);
    assert(e.subrange(0, pa.len() as int) =~= pa);
    lemma_p_voxels_a(b, i, vl);
    let i2 = i + pa.len();
    lemma_window_sub(b, i, e, pa.len() as int, pre.len() as int);
    assert(e.subrange(pa.len() as int, pre.len() as int) =~= pb);
    lemma_p_voxels_b(b, i2, vl);
    let i3 = i + pre.len();
    lemma_window_sub(b, i, e, pre.len() as int, e.len() as int);
    assert(e.subrange(pre.len() as int, e.len() as int) =~= emit_voxel_items(vl.voxels));
    lemma_p_voxel_items_window(b, i3, vl.voxels, Seq::empty());
    assert(Seq::<VoxelV>::empty() + vl.voxels =~= vl.voxels);
    assert((VoxelListV {
        start_position: crate::level::Vec3i {
            x: (vl.start_position.x as int) as i32,
            y: (vl.start_position.y as int) as i32,
            z: (vl.start_position.z as int) as i32,
        },
        end_position: crate::level::Vec3i {
            x: (vl.end_position.x as int) as i32,
            y: (vl.end_position.y as int) as i32,
            z: (vl.end_position.z as int) as i32,
        },
        voxels: vl.voxels,
    }) =~= vl);
}

/// Reading back the written section entries yields them all, stopping
/// where no entry opens.
proof fn lemma_p_section_items_window(
    b: Seq<u8>,
    i: int,
    ss: Seq<CameraNodeSectionV>,
    acc: Seq<CameraNodeSectionV>,
)
    requires
        0 <= i,
        i + emit_section_items(ss).len() <= b.len(),
        b.subrange(i, i + emit_section_items(ss).len()) == emit_section_items(ss),
        eat_lit_s(b, i + emit_section_items(ss).len(), txt_section_entry()) is None,
    ensures
        p_section_items(b, i, acc) == Some((acc + ss, i + emit_section_items(ss).len())),
    decreases ss.len(),
{
    lemma_lit_lens();
    let e = emit_section_items(ss);
    if ss.len() == 0 {
        assert(e =~= Seq::<u8>::empty());
        assert(acc + ss =~= acc);
    } else {
        let s0 = ss[0];
        let e0 = emit_section_text(s0);
        assert(e == e0 + emit_section_items(ss.drop_first()));
        assert(e0 == txt_section_entry() + int_text(s0.tag as int) + txt_section_bytes()
            + bytes_text(s0.bytes) + txt_close_map());
        let lt = int_text(s0.tag as int).len() as int;
        let lb = bytes_text(s0.bytes).len() as int;
        let q1 = 19int;
        let q2 = q1 + lt;
        let q3 = q2 + 9;
        let q4 = q3 + lb;
        let q5 = q4 + 3;
        assert(e0.len() == q5);
        lemma_window_sub(b, i, e, 0, e0.len() as int);
        assert(e.subrange(0, e0.len() as int) =~= e0);
        lemma_window_sub(b, i, e0, 0, q1);
        assert(e0.subrange(0, q1) =~= txt_section_entry());
        lemma_eat_match(b, i, txt_section_entry());
        lemma_window_sub(b, i, e0, q1, q2);
        assert(e0.subrange(q1, q2) =~= int_text(s0.tag as int));
        lemma_window_sub(b, i, e0, q2, q3);
        assert(e0.subrange(q2, q3) =~= txt_section_bytes());
        lemma_window_index(b, i + q2, txt_section_bytes());
        assert(!is_digit(txt_section_bytes()[0])) by {
            reveal(txt_section_bytes);
        }
        lemma_p_int_window(b, i + q1, s0.tag as int);
        lemma_eat_match(b, i + q2, txt_section_bytes());
        lemma_window_sub(b, i, e0, q3, q4);
        assert(e0.subrange(q3, q4) =~= bytes_text(s0.bytes));
        lemma_p_bytes_window(b, i + q3, s0.bytes);
        lemma_window_sub(b, i, e0, q4, q5);
        assert(e0.subrange(q4, q5) =~= txt_close_map());
        lemma_eat_match(b, i + q4, txt_close_map());
        let f = i + q5;
        assert((CameraNodeSectionV { tag: (s0.tag as int) as u8, bytes: s0.bytes }) == s0);
        lemma_window_sub(b, i, e, e0.len() as int, e.len() as int);
        assert(e.subrange(e0.len() as int, e.len() as int) =~= emit_section_items(
            ss.drop_first(),
        ));
        lemma_p_section_items_window(b, f, ss.drop_first(), acc.push(s0));
        assert(acc.push(s0) + ss.drop_first() =~= acc + ss);
        assert(p_section_items(b, i, acc) == p_section_items(b, f, acc.push(s0)));
    }
}

/// Reading back one written camera entry yields the node.
#[verifier::rlimit(100)]
proof fn lemma_p_camera_window(b: Seq<u8>, i: int, n: CameraNodeV)
    requires
        camera_valid(n),
        0 <= i,
        i + emit_camera_text(n).len() <= b.len(),
        b.subrange(i, i + emit_camera_text(n).len()) == emit_camera_text(n),
        eat_lit_s(b, i + emit_camera_text(n).len(), txt_section_entry()) is None,
    ensures
        p_camera_t(b, i) == Some((n, i + emit_camera_text(n).len())),
{
    lemma_lit_lens();
    let e = emit_camera_text(n);
    let sblock: Seq<u8> = if n.sections.len() == 0 {
        txt_sections_none()
    } else {
        txt_sections_hdr() + emit_section_items(n.sections)
    };
    assert(e == txt_camera_entry() + int_text(n.index as int) + txt_camera_type() + int_text(
        n.camera_type as int,
    ) + txt_newline() + sblock);
    let li = int_text(n.index as int).len() as int;
    let lt = int_text(n.camera_type as int).len() as int;
    let q1 = 15int;
    let q2 = q1 + li;
    let q3 = q2 + 11;
    let q4 = q3 + lt;
    let q5 = q4 + 1;
    lemma_window_index(b, i, e);
    lemma_window_sub(b, i, e, 0, q1);
    assert(e.subrange(0, q1) =~= txt_camera_entry());
    lemma_eat_match(b, i, txt_camera_entry());
    lemma_window_sub(b, i, e, q1, q2);
    assert(e.subrange(q1, q2) =~= int_text(n.index as int));
    lemma_window_sub(b, i, e, q2, q3);
    assert(e.subrange(q2, q3) =~= txt_camera_type());
    lemma_window_index(b, i + q2, txt_camera_type());
    assert(!is_digit(txt_camera_type()[0])) by {
        reveal(txt_camera_type);
    }
    lemma_p_int_window(b, i + q1, n.index as int);
    lemma_eat_match(b, i + q2, txt_camera_type());
    lemma_window_sub(b, i, e, q3, q4);
    assert(e.subrange(q3, q4) =~= int_text(n.camera_type as int));
    lemma_window_sub(b, i, e, q4, q5);
    assert(e.subrange(q4, q5) =~= txt_newline());
    lemma_window_index(b, i + q4, txt_newline());
    assert(!is_digit(txt_newline()[0])) by {
        reveal(txt_newline);
    }
    lemma_p_int_window(b, i + q3, n.camera_type as int);
    lemma_eat_match(b, i + q4, txt_newline());
    let a5 = i + q5;
    if n.sections.len() == 0 {
        lemma_window_sub(b, i, e, q5, q5 + 17);
        assert(e.subrange(q5, q5 + 17) =~= txt_sections_none());
        lemma_eat_match(b, a5, txt_sections_none());
        assert((CameraNodeV {
            index: (n.index as int) as i16,
            camera_type: (n.camera_type as int) as u8,
            sections: Seq::<CameraNodeSectionV>::empty(),
        }) =~= n);
    } else {
        lemma_window_sub(b, i, e, q5, q5 + 14);
        assert(e.subrange(q5, q5 + 14) =~= txt_sections_hdr());
        assert(b[a5 + 13] == txt_sections_hdr()[13]);
        assert(txt_sections_none()[13] != txt_sections_hdr()[13]) by {
            reveal(txt_sections_none);
            reveal(txt_sections_hdr);
        }
        lemma_eat_mismatch(b, a5, txt_sections_none(), 13);
        lemma_eat_match(b, a5, txt_sections_hdr());
        lemma_window_sub(b, i, e, q5 + 14, e.len() as int);
        assert(e.subrange(q5 + 14, e.len() as int) =~= emit_section_items(n.sections));
        lemma_p_section_items_window(b, a5 + 14, n.sections, Seq::empty());
        assert(Seq::<CameraNodeSectionV>::empty() + n.sections =~= n.sections);
        assert((CameraNodeV {
            index: (n.index as int) as i16,
            camera_type: (n.camera_type as int) as u8,
            sections: n.sections,
        }) =~= n);
    }
}

/// Reading back the written camera entries yields them all.
#[verifier::rlimit(100)]
proof fn lemma_p_camera_items_window(b: Seq<u8>, i: int, ns: Seq<CameraNodeV>, acc: Seq<
    CameraNodeV,
>)
    requires
        forall|k: int| 0 <= k < ns.len() ==> camera_valid(#[trigger] ns[k]),
        0 <= i,
        i + emit_camera_items(ns).len() <= b.len(),
        b.subrange(i, i + emit_camera_items(ns).len()) == emit_camera_items(ns),
        eat_lit_s(b, i + emit_camera_items(ns).len(), txt_camera_entry()) is None,
        eat_lit_s(b, i + emit_camera_items(ns).len(), txt_section_entry()) is None,
    ensures
        p_camera_items(b, i, acc) == Some((acc + ns, i + emit_camera_items(ns).len())),
    decreases ns.len(),
{
    lemma_lit_lens();
    let e = emit_camera_items(ns);
    if ns.len() == 0 {
        assert(e =~= Seq::<u8>::empty());
        assert(acc + ns =~= acc);
    } else {
        let e0 = emit_camera_text(ns[0]);
        assert(e == e0 + emit_camera_items(ns.drop_first()));
        lemma_window_sub(b, i, e, 0, e0.len() as int);
        assert(e.subrange(0, e0.len() as int) =~= e0);
        let j = i + e0.len();
        // what follows this node is either another entry or what the
        // caller said follows the list; either way no section opens
        if ns.len() == 1 {
            assert(emit_camera_items(ns.drop_first()) =~= Seq::<u8>::empty()) by {
                assert(ns.drop_first().len() == 0);
            }
            assert(j == i + e.len());
        } else {
            let e1 = emit_camera_text(ns.drop_first()[0]);
            assert(emit_camera_items(ns.drop_first()) == e1 + emit_camera_items(
                ns.drop_first().drop_first(),
            ));
            lemma_window_sub(b, i, e, e0.len() as int, e0.len() as int + e1.len());
            assert(e.subrange(e0.len() as int, e0.len() as int + e1.len()) =~= e1);
            lemma_window_sub(b, j, e1, 0, 15);
            assert(e1 == txt_camera_entry() + (e1.subrange(15, e1.len() as int)));
            assert(e1.subrange(0, 15) =~= txt_camera_entry());
            lemma_window_index(b, j, txt_camera_entry());
            assert(b[j + 2] == txt_camera_entry()[2]);
            assert(txt_camera_entry()[2] != txt_section_entry()[2]) by {
                reveal(txt_camera_entry);
                reveal(txt_section_entry);
            }
            lemma_eat_mismatch(b, j, txt_section_entry(), 2);
        }
        lemma_p_camera_window(b, i, ns[0]);
        // the entry opens, so the loop takes it
        lemma_window_sub(b, i, e0, 0, 15);
        assert(e0.subrange(0, 15) =~= txt_camera_entry()) by {
            assert(e0 == txt_camera_entry() + int_text(ns[0].index as int) + txt_camera_type()
                + int_text(ns[0].camera_type as int) + txt_newline() + (if ns[0].sections.len()
                == 0 {
                txt_sections_none()
            } else {
                txt_sections_hdr() + emit_section_items(ns[0].sections)
            }));
        }
        lemma_eat_match(b, i, txt_camera_entry());
        lemma_window_sub(b, i, e, e0.len() as int, e.len() as int);
        assert(e.subrange(e0.len() as int, e.len() as int) =~= emit_camera_items(
            ns.drop_first(),
        ));
        assert forall|k: int| 0 <= k < ns.drop_first().len() implies camera_valid(
            #[trigger] ns.drop_first()[k],
        ) by {
            assert(ns.drop_first()[k] == ns[k + 1]);
        }
        lemma_p_camera_items_window(b, j, ns.drop_first(), acc.push(ns[0]));
        assert(acc.push(ns[0]) + ns.drop_first() =~= acc + ns);
        assert(p_camera_items(b, i, acc) == p_camera_items(b, j, acc.push(ns[0])));
    }
}

/// Reading back the written `cameras:` mapping yields the nodes.
proof fn lemma_p_cameras_window(b: Seq<u8>, i: int, ns: Seq<CameraNodeV>)
    requires
        forall|k: int| 0 <= k < ns.len() ==> camera_valid(#[trigger] ns[k]),
        0 <= i,
        i + emit_cameras_text(ns).len() <= b.len(),
        b.subrange(i, i + emit_cameras_text(ns).len()) == emit_cameras_text(ns),
        eat_lit_s(b, i + emit_cameras_text(ns).len(), txt_camera_entry()) is None,
        eat_lit_s(b, i + emit_cameras_text(ns).len(), txt_section_entry()) is None,
    ensures
        p_cameras_t(b, i) == Some((ns, i + emit_cameras_text(ns).len())),
{
    lemma_lit_lens();
    let e = emit_cameras_text(ns);
    lemma_window_index(b, i, e);
    if ns.len() == 0 {
        assert(e =~= txt_cameras_none());
        lemma_eat_match(b, i, txt_cameras_none());
        assert(Seq::<CameraNodeV>::empty() =~= ns);
    } else {
        assert(e == txt_cameras_hdr() + emit_camera_items(ns));
        lemma_window_sub(b, i, e, 0, 9);
        assert(e.subrange(0, 9) =~= txt_cameras_hdr());
        assert(b[i + 8] == txt_cameras_hdr()[8]);
        assert(txt_cameras_none()[8] != txt_cameras_hdr()[8]) by {
            reveal(txt_cameras_none);
            reveal(txt_cameras_hdr);
        }
        lemma_eat_mismatch(b, i, txt_cameras_none(), 8);
        lemma_eat_match(b, i, txt_cameras_hdr());
        lemma_window_sub(b, i, e, 9, e.len() as int);
        assert(e.subrange(9, e.len() as int) =~= emit_camera_items(ns));
        lemma_p_camera_items_window(b, i + 9, ns, Seq::empty());
        assert(Seq::<CameraNodeV>::empty() + ns =~= ns);
    }
}

/// The byte-array literal of a four-byte record is 24 bytes long.
proof fn lemma_bytes_text_len4(s: Seq<u8>)
    requires
        s.len() == 4,
    ensures
        bytes_text(s).len() == 24,
{
    let s1 = s.drop_first();
    let s2 = s1.drop_first();
    let s3 = s2.drop_first();
    assert(s3.drop_first() =~= Seq::<u8>::empty());
    assert(sep_items_text(Seq::<u8>::empty()) == Seq::<u8>::empty());
    assert(sep_items_text(s3) == seq![0x2Cu8, 0x20u8] + hex_byte(s3[0]) + sep_items_text(
        s3.drop_first(),
    ));
    assert(sep_items_text(s2) == seq![0x2Cu8, 0x20u8] + hex_byte(s2[0]) + sep_items_text(s3));
    assert(sep_items_text(s1) == seq![0x2Cu8, 0x20u8] + hex_byte(s1[0]) + sep_items_text(s2));
    assert(bytes_items_text(s) == hex_byte(s[0]) + sep_items_text(s1));
}

/// The head of a lighting entry: its opener and position triple.
spec fn lighting_text_a(n: LightingNode) -> Seq<u8> {
    txt_entry_open() + txt_light_pos() + bytes_text(be32(n.position.x)) + txt_comma_y()
        + bytes_text(be32(n.position.y)) + txt_comma_z() + bytes_text(be32(n.position.z))
        + txt_close_map_comma()
}

/// The tail of a lighting entry: its flags and color.
spec fn lighting_text_b(n: LightingNode) -> Seq<u8> {
    txt_flags_open() + bytes_text(be32(n.flags.x)) + txt_comma_sp() + bytes_text(be32(n.flags.y))
        + txt_flags_close() + txt_rgb_open() + hex2(n.rgb.r) + hex2(n.rgb.g) + hex2(n.rgb.b)
        + txt_rgb_close()
}

/// Reading back the head of a lighting entry.
#[verifier::rlimit(100)]
proof fn lemma_p_lighting_a(b: Seq<u8>, i: int, n: LightingNode)
    requires
        0 <= i,
        i + lighting_text_a(n).len() <= b.len(),
        b.subrange(i, i + lighting_text_a(n).len()) == lighting_text_a(n),
    ensures
        lighting_text_a(n).len() == 115,
        eat_lit_s(b, i, txt_entry_open()) == Some(i + 8),
        eat_lit_s(b, i + 8, txt_light_pos()) == Some(i + 29),
        p_bytes(b, i + 29) == Some((be32(n.position.x), i + 53)),
        eat_lit_s(b, i + 53, txt_comma_y()) == Some(i + 58),
        p_bytes(b, i + 58) == Some((be32(n.position.y), i + 82)),
        eat_lit_s(b, i + 82, txt_comma_z()) == Some(i + 87),
        p_bytes(b, i + 87) == Some((be32(n.position.z), i + 111)),
        eat_lit_s(b, i + 111, txt_close_map_comma()) == Some(i + 115),
{
    lemma_lit_lens();
    let pre = lighting_text_a(n);
    let px = be32(n.position.x);
    let py = be32(n.position.y);
    let pz = be32(n.position.z);
    lemma_bytes_text_len4(px);
    lemma_bytes_text_len4(py);
    lemma_bytes_text_len4(pz);
    assert(pre.len() == 115);
    lemma_window_sub(b, i, pre, 0, 8);
    assert(pre.subrange(0, 8) =~= txt_entry_open());
    lemma_eat_match(b, i, txt_entry_open());
    lemma_window_sub(b, i, pre, 8, 29);
    assert(pre.subrange(8, 29) =~= txt_light_pos());
    lemma_eat_match(b, i + 8, txt_light_pos());
    lemma_window_sub(b, i, pre, 29, 53);
    assert(pre.subrange(29, 53) =~= bytes_text(px));
    lemma_p_bytes_window(b, i + 29, px);
    lemma_window_sub(b, i, pre, 53, 58);
    assert(pre.subrange(53, 58) =~= txt_comma_y());
    lemma_eat_match(b, i + 53, txt_comma_y());
    lemma_window_sub(b, i, pre, 58, 82);
    assert(pre.subrange(58, 82) =~= bytes_text(py));
    lemma_p_bytes_window(b, i + 58, py);
    lemma_window_sub(b, i, pre, 82, 87);
    assert(pre.subrange(82, 87) =~= txt_comma_z());
    lemma_eat_match(b, i + 82, txt_comma_z());
    lemma_window_sub(b, i, pre, 87, 111);
    assert(pre.subrange(87, 111) =~= bytes_text(pz));
    lemma_p_bytes_window(b, i + 87, pz);
    lemma_window_sub(b, i, pre, 111, 115);
    assert(pre.subrange(111, 115) =~= txt_close_map_comma());
    lemma_eat_match(b, i + 111, txt_close_map_comma());
}

/// Reading back the tail of a lighting entry.
#[verifier::rlimit(100)]
proof fn lemma_p_lighting_b(b: Seq<u8>, i: int, n: LightingNode)
    requires
        0 <= i,
        i + lighting_text_b(n).len() <= b.len(),
        b.subrange(i, i + lighting_text_b(n).len()) == lighting_text_b(n),
    ensures
        lighting_text_b(n).len() == 93,
        eat_lit_s(b, i, txt_flags_open()) == Some(i + 14),
        p_bytes(b, i + 14) == Some((be32(n.flags.x), i + 38)),
        eat_lit_s(b, i + 38, txt_comma_sp()) == Some(i + 40),
        p_bytes(b, i + 40) == Some((be32(n.flags.y), i + 64)),
        eat_lit_s(b, i + 64, txt_flags_close()) == Some(i + 67),
        eat_lit_s(b, i + 67, txt_rgb_open()) == Some(i + 79),
        p_hex2(b, i + 79) == Some((n.rgb.r, i + 81)),
        p_hex2(b, i + 81) == Some((n.rgb.g, i + 83)),
        p_hex2(b, i + 83) == Some((n.rgb.b, i + 85)),
        eat_lit_s(b, i + 85, txt_rgb_close()) == Some(i + 93),
{
    lemma_lit_lens();
    let pre = lighting_text_b(n);
    let fx = be32(n.flags.x);
    let fy = be32(n.flags.y);
    lemma_bytes_text_len4(fx);
    lemma_bytes_text_len4(fy);
    assert(pre.len() == 93);
    lemma_window_sub(b, i, pre, 0, 14);
    assert(pre.subrange(0, 14) =~= txt_flags_open());
    lemma_eat_match(b, i, txt_flags_open());
    lemma_window_sub(b, i, pre, 14, 38);
    assert(pre.subrange(14, 38) =~= bytes_text(fx));
    lemma_p_bytes_window(b, i + 14, fx);
    lemma_window_sub(b, i, pre, 38, 40);
    assert(pre.subrange(38, 40) =~= txt_comma_sp());
    lemma_eat_match(b, i + 38, txt_comma_sp());
    lemma_window_sub(b, i, pre, 40, 64);
    assert(pre.subrange(40, 64) =~= bytes_text(fy));
    lemma_p_bytes_window(b, i + 40, fy);
    lemma_window_sub(b, i, pre, 64, 67);
    assert(pre.subrange(64, 67) =~= txt_flags_close());
    lemma_eat_match(b, i + 64, txt_flags_close());
    lemma_window_sub(b, i, pre, 67, 79);
    assert(pre.subrange(67, 79) =~= txt_rgb_open());
    lemma_eat_match(b, i + 67, txt_rgb_open());
    lemma_window_sub(b, i, pre, 79, 81);
    assert(pre.subrange(79, 81) =~= hex2(n.rgb.r));
    lemma_p_hex2_window(b, i + 79, n.rgb.r);
    lemma_window_sub(b, i, pre, 81, 83);
    assert(pre.subrange(81, 83) =~= hex2(n.rgb.g));
    lemma_p_hex2_window(b, i + 81, n.rgb.g);
    lemma_window_sub(b, i, pre, 83, 85);
    assert(pre.subrange(83, 85) =~= hex2(n.rgb.b));
    lemma_p_hex2_window(b, i + 83, n.rgb.b);
    lemma_window_sub(b, i, pre, 85, 93);
    assert(pre.subrange(85, 93) =~= txt_rgb_close());
    lemma_eat_match(b, i + 85, txt_rgb_close());
}

/// Reading back one written lighting entry yields the node.
#[verifier::rlimit(100)]
proof fn lemma_p_lighting_window(b: Seq<u8>, i: int, n: LightingNode)
    requires
        0 <= i,
        i + emit_lighting_text(n).len() <= b.len(),
        b.subrange(i, i + emit_lighting_text(n).len()) == emit_lighting_text(n),
    ensures
        p_lighting_t(b, i) == Some((n, i + emit_lighting_text(n).len())),
{
    lemma_lit_lens();
    let e = emit_lighting_text(n);
    let pa = lighting_text_a(n);
    let pb = lighting_text_b(n);
    assert(e =~= pa + pb);
    lemma_window_sub(b, i, e, 0, pa.len() as int);
    assert(e.subrange(0, pa.len() as int) =~= pa);
    lemma_p_lighting_a(b, i, n);
    lemma_window_sub(b, i, e, pa.len() as int, e.len() as int);
    assert(e.subrange(pa.len() as int, e.len() as int) =~= pb);
    lemma_p_lighting_b(b, i + pa.len(), n);
    let px = be32(n.position.x);
    let py = be32(n.position.y);
    let pz = be32(n.position.z);
    let fx = be32(n.flags.x);
    let fy = be32(n.flags.y);
    lemma_be32_roundtrip(n.position.x);
    lemma_be32_roundtrip(n.position.y);
    lemma_be32_roundtrip(n.position.z);
    lemma_be32_roundtrip(n.flags.x);
    lemma_be32_roundtrip(n.flags.y);
    assert((LightingNode {
        position: crate::level::Vec3Bits {
            x: crate::bytes::u32v(px[0], px[1], px[2], px[3]),
            y: crate::bytes::u32v(py[0], py[1], py[2], py[3]),
            z: crate::bytes::u32v(pz[0], pz[1], pz[2], pz[3]),
        },
        flags: crate::level::Vec2Bits {
            x: crate::bytes::u32v(fx[0], fx[1], fx[2], fx[3]),
            y: crate::bytes::u32v(fy[0], fy[1], fy[2], fy[3]),
        },
        rgb: crate::level::Rgb { r: n.rgb.r, g: n.rgb.g, b: n.rgb.b },
    }) == n);
}

/// Reading back the written lighting entries yields them all.
#[verifier::rlimit(100)]
proof fn lemma_p_lighting_items_window(b: Seq<u8>, i: int, ns: Seq<LightingNode>, acc: Seq<
    LightingNode,
>)
    requires
        0 <= i,
        i + emit_lighting_items(ns).len() <= b.len(),
        b.subrange(i, i + emit_lighting_items(ns).len()) == emit_lighting_items(ns),
        eat_lit_s(b, i + emit_lighting_items(ns).len(), txt_entry_open()) is None,
    ensures
        p_lighting_items(b, i, acc) == Some((acc + ns, i + emit_lighting_items(ns).len())),
    decreases ns.len(),
{
    lemma_lit_lens();
    let e = emit_lighting_items(ns);
    if ns.len() == 0 {
        assert(e =~= Seq::<u8>::empty());
        assert(acc + ns =~= acc);
    } else {
        let e0 = emit_lighting_text(ns[0]);
        assert(e == e0 + emit_lighting_items(ns.drop_first()));
        lemma_window_sub(b, i, e, 0, e0.len() as int);
        assert(e.subrange(0, e0.len() as int) =~= e0);
        lemma_p_lighting_window(b, i, ns[0]);
        lemma_window_sub(b, i, e0, 0, 8);
        assert(e0.subrange(0, 8) =~= txt_entry_open()) by {
            assert(e0 == txt_entry_open() + (e0.subrange(8, e0.len() as int)));
        }
        lemma_eat_match(b, i, txt_entry_open());
        let j = i + e0.len();
        lemma_window_sub(b, i, e, e0.len() as int, e.len() as int);
        assert(e.subrange(e0.len() as int, e.len() as int) =~= emit_lighting_items(
            ns.drop_first(),
        ));
        lemma_p_lighting_items_window(b, j, ns.drop_first(), acc.push(ns[0]));
        assert(acc.push(ns[0]) + ns.drop_first() =~= acc + ns);
        assert(p_lighting_items(b, i, acc) == p_lighting_items(b, j, acc.push(ns[0])));
    }
}

/// Reading back the written `lightings:` mapping yields the nodes.
proof fn lemma_p_lightings_window(b: Seq<u8>, i: int, ns: Seq<LightingNode>)
    requires
        0 <= i,
        i + emit_lightings_text(ns).len() <= b.len(),
        b.subrange(i, i + emit_lightings_text(ns).len()) == emit_lightings_text(ns),
        eat_lit_s(b, i + emit_lightings_text(ns).len(), txt_entry_open()) is None,
    ensures
        p_lightings_t(b, i) == Some((ns, i + emit_lightings_text(ns).len())),
{
    lemma_lit_lens();
    let e = emit_lightings_text(ns);
    lemma_window_index(b, i, e);
    if ns.len() == 0 {
        assert(e =~= txt_lightings_none());
        lemma_eat_match(b, i, txt_lightings_none());
        assert(Seq::<LightingNode>::empty() =~= ns);
    } else {
        assert(e == txt_lightings_hdr() + emit_lighting_items(ns));
        lemma_window_sub(b, i, e, 0, 11);
        assert(e.subrange(0, 11) =~= txt_lightings_hdr());
        assert(b[i + 10] == txt_lightings_hdr()[10]);
        assert(txt_lightings_none()[10] != txt_lightings_hdr()[10]) by {
            reveal(txt_lightings_none);
            reveal(txt_lightings_hdr);
        }
        lemma_eat_mismatch(b, i, txt_lightings_none(), 10);
        lemma_eat_match(b, i, txt_lightings_hdr());
        lemma_window_sub(b, i, e, 11, e.len() as int);
        assert(e.subrange(11, e.len() as int) =~= emit_lighting_items(ns));
        lemma_p_lighting_items_window(b, i + 11, ns, Seq::empty());
        assert(Seq::<LightingNode>::empty() + ns =~= ns);
    }
}

/// The voxel mapping of a written document reads back as the voxel
/// list.
#[verifier::rlimit(100)]
proof fn lemma_text_rt_voxels(l: LevelSetupV)
    requires
        level_valid(l),
    ensures
        emit_level_text(l).len() == 17 + emit_voxels_text(l.voxel_list).len()
            + emit_cameras_text(l.camera_nodes).len() + emit_lightings_text(
            l.lighting_nodes,
        ).len(),
        eat_lit_s(emit_level_text(l), 0, txt_doc_type()) == Some(17int),
        p_voxels_t(emit_level_text(l), 17) == Some(
            (l.voxel_list, 17 + emit_voxels_text(l.voxel_list).len() as int),
        ),
{
    lemma_lit_lens();
    let b = emit_level_text(l);
    let ev = emit_voxels_text(l.voxel_list);
    let ec = emit_cameras_text(l.camera_nodes);
    let el = emit_lightings_text(l.lighting_nodes);
    assert(b == txt_doc_type() + ev + ec + el);
    assert(b.subrange(0, 17) =~= txt_doc_type());
    lemma_eat_match(b, 0, txt_doc_type());
    let i1 = 17int;
    assert(b.subrange(i1, i1 + ev.len()) =~= ev);
    let i2 = i1 + ev.len();
    assert(ec.len() > 0) by {
        if l.camera_nodes.len() == 0 {
            assert(ec == txt_cameras_none());
        } else {
            assert(ec == txt_cameras_hdr() + emit_camera_items(l.camera_nodes));
        }
    }
    assert(b[i2] == ec[0]);
    assert(ec[0] != txt_entry_open()[0]) by {
        reveal(txt_cameras_none);
        reveal(txt_cameras_hdr);
        reveal(txt_entry_open);
        if l.camera_nodes.len() == 0 {
            assert(ec[0] == txt_cameras_none()[0]);
        } else {
            assert(ec[0] == txt_cameras_hdr()[0]);
        }
    }
    lemma_eat_mismatch(b, i2, txt_entry_open(), 0);
    lemma_p_voxels_window(b, i1, l.voxel_list);
}

/// The camera mapping of a written document reads back as the nodes.
#[verifier::rlimit(100)]
proof fn lemma_text_rt_cameras(l: LevelSetupV)
    requires
        level_valid(l),
    ensures
        p_cameras_t(emit_level_text(l), 17 + emit_voxels_text(l.voxel_list).len() as int)
            == Some(
            (
                l.camera_nodes,
                17 + emit_voxels_text(l.voxel_list).len() + emit_cameras_text(
                    l.camera_nodes,
                ).len() as int,
            ),
        ),
{
    lemma_lit_lens();
    let b = emit_level_text(l);
    let ev = emit_voxels_text(l.voxel_list);
    let ec = emit_cameras_text(l.camera_nodes);
    let el = emit_lightings_text(l.lighting_nodes);
    assert(b == txt_doc_type() + ev + ec + el);
    let i2 = 17 + ev.len() as int;
    assert(b.subrange(i2, i2 + ec.len()) =~= ec);
    let i3 = i2 + ec.len();
    assert(el.len() > 0) by {
        if l.lighting_nodes.len() == 0 {
            assert(el == txt_lightings_none());
        } else {
            assert(el == txt_lightings_hdr() + emit_lighting_items(l.lighting_nodes));
        }
    }
    assert(b[i3] == el[0]);
    assert(el[0] != txt_camera_entry()[0] && el[0] != txt_section_entry()[0]) by {
        reveal(txt_lightings_none);
        reveal(txt_lightings_hdr);
        reveal(txt_camera_entry);
        reveal(txt_section_entry);
        if l.lighting_nodes.len() == 0 {
            assert(el[0] == txt_lightings_none()[0]);
        } else {
            assert(el[0] == txt_lightings_hdr()[0]);
        }
    }
    lemma_eat_mismatch(b, i3, txt_camera_entry(), 0);
    lemma_eat_mismatch(b, i3, txt_section_entry(), 0);
    lemma_p_cameras_window(b, i2, l.camera_nodes);
}

/// The lighting mapping of a written document reads back as the nodes,
/// ending exactly at the document's end.
#[verifier::rlimit(100)]
proof fn lemma_text_rt_lightings(l: LevelSetupV)
    requires
        level_valid(l),
    ensures
        p_lightings_t(
            emit_level_text(l),
            17 + emit_voxels_text(l.voxel_list).len() + emit_cameras_text(
                l.camera_nodes,
            ).len() as int,
        ) == Some((l.lighting_nodes, emit_level_text(l).len() as int)),
{
    lemma_lit_lens();
    let b = emit_level_text(l);
    let ev = emit_voxels_text(l.voxel_list);
    let ec = emit_cameras_text(l.camera_nodes);
    let el = emit_lightings_text(l.lighting_nodes);
    assert(b == txt_doc_type() + ev + ec + el);
    let i3 = 17 + ev.len() + ec.len() as int;
    assert(b.subrange(i3, i3 + el.len()) =~= el);
    let i4 = i3 + el.len();
    assert(i4 == b.len());
    assert(eat_lit_s(b, i4, txt_entry_open()) is None);
    lemma_p_lightings_window(b, i3, l.lighting_nodes);
}

/// Textual round trip: reading back the document written for any
/// structurally valid level setup gives back exactly that value.
pub proof fn lemma_text_round_trip(l: LevelSetupV)
    requires
        level_valid(l),
    ensures
        p_level_t(emit_level_text(l)) == Some(l),
{
    lemma_text_rt_voxels(l);
    lemma_text_rt_cameras(l);
    lemma_text_rt_lightings(l);
    assert((LevelSetupV {
        voxel_list: l.voxel_list,
        camera_nodes: l.camera_nodes,
        lighting_nodes: l.lighting_nodes,
    }) =~= l);
}

/// The full textual round trip: a valid, encodable, canonical level
/// setup survives binary decoding, textual emission, textual parsing
/// and binary re-encoding byte for byte.
pub proof fn lemma_full_round_trip(l: LevelSetupV)
    requires
        level_valid(l),
        level_encodable(l),
        level_canonical(l),
    ensures
        dec_level(enc_level(l)) == Some(l),
        p_level_t(emit_level_text(l)) == Some(l),
        enc_level(p_level_t(emit_level_text(dec_level(enc_level(l))->0))->0) == enc_level(l),
{
    lemma_level_round_trip(l);
    lemma_text_round_trip(l);
}

} // verus!
